//! Deterministic overlapping partitions for hierarchical ordered-image
//! reconstruction.
//!
//! Boundaries are selected near a target window length, but may move within a
//! bounded search interval to a seam with stronger verified cross-boundary
//! support. An optional per-cut quality hint lets a frontend bring in motion,
//! blur, or dynamic-region evidence without changing geometric acceptance gates.
use crate::scalar::Scalar;
use crate::sequences::lists_kept;
use crate::text::{decimal, decimal_text};
use std::ops::Range;
use vstd::prelude::*;

verus! {

/// Verified correspondences between two images of an ordered sequence.
#[derive(Clone, Debug, PartialEq, Eq)]
pub struct PairwiseMatches {
    pub image_i: usize,
    pub image_j: usize,
    pub matches: Vec<(usize, usize)>,
}

#[derive(Clone, Copy, Debug, PartialEq, Eq, Structural)]
pub struct AdaptiveSubmapPartitionConfig {
    /// Smallest permitted window, counting its overlap with the previous one.
    pub min_images: usize,
    /// Preferred window length before seam-quality adjustment.
    pub target_images: usize,
    /// Hard upper bound on a window's image count.
    pub max_images: usize,
    /// Images reconstructed independently in both adjacent submaps.
    pub overlap_images: usize,
    /// Maximum displacement of a boundary from `target_images`.
    pub boundary_search_radius: usize,
    /// Whether a window that fails to build for a widenable reason is merged
    /// with a neighbour and retried (see [`crate::submap_widening::widen_and_build`]) instead of
    /// aborting the whole run.
    pub widen_unseedable_windows: bool,
    /// Cap on how many neighbouring windows may be absorbed into one contiguous
    /// failing span before the triggering error is returned.
    pub max_widen_merges: usize,
    /// Minimum number of images, in the overlap that a widened window shares
    /// with a still-independent predecessor, that must lie outside the span that
    /// first failed to build. Zero disables the check.
    pub min_post_widen_overlap_images: usize,
}

impl Default for AdaptiveSubmapPartitionConfig {
    fn default() -> (config: Self)
        ensures
            config == (AdaptiveSubmapPartitionConfig {
                min_images: 24,
                target_images: 64,
                max_images: 96,
                overlap_images: 16,
                boundary_search_radius: 16,
                widen_unseedable_windows: true,
                max_widen_merges: 16,
                min_post_widen_overlap_images: 1,
            }),
    {
        AdaptiveSubmapPartitionConfig {
            min_images: 24,
            target_images: 64,
            max_images: 96,
            overlap_images: 16,
            boundary_search_radius: 16,
            widen_unseedable_windows: true,
            max_widen_merges: 16,
            min_post_widen_overlap_images: 1,
        }
    }
}

impl AdaptiveSubmapPartitionConfig {
    /// The sizes are in order and the overlap leaves room for progress.
    pub open spec fn valid(self) -> bool {
        0 < self.min_images <= self.target_images <= self.max_images && self.overlap_images
            < self.min_images
    }
}

/// Optional frontend evidence indexed by cut position. Entry `c` describes the
/// seam between images `c - 1` and `c`; larger finite values favor that seam.
#[derive(Clone, Debug, PartialEq, Eq)]
pub struct AdaptiveSubmapPartitionHints {
    pub boundary_quality_by_cut: Vec<Scalar>,
}

impl Default for AdaptiveSubmapPartitionHints {
    fn default() -> (hints: Self)
        ensures
            hints.boundary_quality_by_cut@ == Seq::<Scalar>::empty(),
    {
        AdaptiveSubmapPartitionHints { boundary_quality_by_cut: Vec::new() }
    }
}

impl AdaptiveSubmapPartitionHints {
    /// The quality factor of a cut: its hint where that is finite and not
    /// negative, and one otherwise.
    pub open spec fn quality(self, cut: int) -> Scalar {
        if 0 <= cut < self.boundary_quality_by_cut.len() && self.boundary_quality_by_cut[cut].is_finite()
            && Scalar::zero().le(self.boundary_quality_by_cut[cut]) {
            self.boundary_quality_by_cut[cut]
        } else {
            Scalar::one()
        }
    }

    /// The factor by which a seam's support is weighted at `cut`.
    pub fn quality_at(&self, cut: usize) -> (quality: Scalar)
        ensures
            quality == self.quality(cut as int),
    {
        if cut < self.boundary_quality_by_cut.len() {
            let hint = self.boundary_quality_by_cut[cut];
            if hint.is_finite() && Scalar::zero().le(hint) {
                return hint;
            }
        }
        Scalar::one()
    }
}

/// A contiguous run of images that is reconstructed as one submap.
#[derive(Debug, PartialEq, Eq)]
pub struct SubmapWindow {
    pub image_range: Range<usize>,
    /// Sum of verified correspondences on pair edges crossing the chosen end.
    /// The final window has no outgoing seam and therefore reports zero.
    pub outgoing_seam_support: usize,
}

impl Clone for SubmapWindow {
    fn clone(&self) -> (window: Self)
        ensures
            window == *self,
    {
        SubmapWindow {
            image_range: self.image_range.start..self.image_range.end,
            outgoing_seam_support: self.outgoing_seam_support,
        }
    }
}

impl SubmapWindow {
    /// Number of images in the window.
    pub fn image_count(&self) -> (count: usize)
        ensures
            count == range_len(self.image_range),
    {
        if self.image_range.start < self.image_range.end {
            self.image_range.end - self.image_range.start
        } else {
            0
        }
    }
}

/// Number of indices in a half-open range.
pub open spec fn range_len(range: Range<usize>) -> int {
    if range.start < range.end {
        range.end - range.start
    } else {
        0
    }
}

#[derive(Clone, Copy, Debug, PartialEq, Eq, Structural)]
pub enum SubmapPartitionError {
    ZeroMinimum,
    InvalidSizeOrder,
    OverlapTooLarge,
    PairImageOutOfRange { pair_index: usize, image_index: usize, image_count: usize },
}

impl SubmapPartitionError {
    /// A description for people.
    pub fn message(&self) -> (text: String)
        ensures
            *self is ZeroMinimum ==> text@ == "submap min_images must be positive"@,
            *self is InvalidSizeOrder ==> text@
                == "submap sizes must satisfy min_images <= target_images <= max_images"@,
            *self is OverlapTooLarge ==> text@
                == "submap overlap_images must be smaller than min_images"@,
            *self matches SubmapPartitionError::PairImageOutOfRange {
                pair_index,
                image_index,
                image_count,
            } ==> text@ == "pair "@ + decimal(pair_index as nat) + " references image "@ + decimal(
                image_index as nat,
            ) + "; image count is "@ + decimal(image_count as nat),
    {
        match self {
            SubmapPartitionError::ZeroMinimum => "submap min_images must be positive".to_owned(),
            SubmapPartitionError::InvalidSizeOrder =>
                "submap sizes must satisfy min_images <= target_images <= max_images".to_owned(),
            SubmapPartitionError::OverlapTooLarge =>
                "submap overlap_images must be smaller than min_images".to_owned(),
            SubmapPartitionError::PairImageOutOfRange { pair_index, image_index, image_count } => {
                String::from_str("pair ").concat(decimal_text(*pair_index as u128).as_str()).concat(
                    " references image ",
                ).concat(decimal_text(*image_index as u128).as_str()).concat("; image count is ").concat(
                    decimal_text(*image_count as u128).as_str(),
                )
            },
        }
    }
}


/// Checks the window sizes: the first of the three rules that is broken is
/// reported.
pub fn validate_config(config: &AdaptiveSubmapPartitionConfig) -> (result: Result<
    (),
    SubmapPartitionError,
>)
    ensures
        result is Ok <==> config.valid(),
        result matches Err(error) ==> error == (if config.min_images == 0 {
            SubmapPartitionError::ZeroMinimum
        } else if !(config.min_images <= config.target_images <= config.max_images) {
            SubmapPartitionError::InvalidSizeOrder
        } else {
            SubmapPartitionError::OverlapTooLarge
        }),
{
    if config.min_images == 0 {
        return Err(SubmapPartitionError::ZeroMinimum);
    }
    if config.min_images > config.target_images || config.target_images > config.max_images {
        return Err(SubmapPartitionError::InvalidSizeOrder);
    }
    if config.overlap_images >= config.min_images {
        return Err(SubmapPartitionError::OverlapTooLarge);
    }
    Ok(())
}

/// The pair's earlier image.
pub open spec fn pair_left(pair: PairwiseMatches) -> int {
    if pair.image_i <= pair.image_j {
        pair.image_i as int
    } else {
        pair.image_j as int
    }
}

/// The pair's later image.
pub open spec fn pair_right(pair: PairwiseMatches) -> int {
    if pair.image_i <= pair.image_j {
        pair.image_j as int
    } else {
        pair.image_i as int
    }
}

/// The pair joins an image before the cut with one at or after it.
pub open spec fn crosses(pair: PairwiseMatches, cut: int) -> bool {
    pair_left(pair) < cut <= pair_right(pair)
}

/// Number of correspondences on pairs that cross `cut`.
pub open spec fn seam_support(pairwise: Seq<PairwiseMatches>, cut: int) -> int
    decreases pairwise.len(),
{
    if pairwise.len() == 0 {
        0
    } else {
        seam_support(pairwise.drop_last(), cut) + if crosses(pairwise.last(), cut) {
            pairwise.last().matches.len() as int
        } else {
            0
        }
    }
}

/// Number of correspondences on all pairs.
pub open spec fn total_matches(pairwise: Seq<PairwiseMatches>) -> int
    decreases pairwise.len(),
{
    if pairwise.len() == 0 {
        0
    } else {
        total_matches(pairwise.drop_last()) + pairwise.last().matches.len()
    }
}

/// Every pair lies inside a sequence of `image_count` images.
pub open spec fn pairs_in_range(pairwise: Seq<PairwiseMatches>, image_count: int) -> bool {
    forall|k: int|
        0 <= k < pairwise.len() ==> (#[trigger] pairwise[k]).image_i < image_count
            && pairwise[k].image_j < image_count
}

/// What the pairs add to the support when the cut moves from `cut - 1` to `cut`.
spec fn support_step(pairwise: Seq<PairwiseMatches>, cut: int) -> int
    decreases pairwise.len(),
{
    if pairwise.len() == 0 {
        0
    } else {
        support_step(pairwise.drop_last(), cut) + (if pair_left(pairwise.last()) + 1 == cut {
            pairwise.last().matches.len() as int
        } else {
            0
        }) - (if pair_right(pairwise.last()) + 1 == cut {
            pairwise.last().matches.len() as int
        } else {
            0
        })
    }
}

proof fn lemma_support_step(pairwise: Seq<PairwiseMatches>, cut: int)
    ensures
        seam_support(pairwise, cut) == seam_support(pairwise, cut - 1) + support_step(
            pairwise,
            cut,
        ),
    decreases pairwise.len(),
{
    if pairwise.len() > 0 {
        lemma_support_step(pairwise.drop_last(), cut);
    }
}

proof fn lemma_support_at_zero(pairwise: Seq<PairwiseMatches>)
    ensures
        seam_support(pairwise, -1) == 0,
        seam_support(pairwise, 0) == 0,
    decreases pairwise.len(),
{
    if pairwise.len() > 0 {
        lemma_support_at_zero(pairwise.drop_last());
    }
}

proof fn lemma_support_bounds(pairwise: Seq<PairwiseMatches>, cut: int)
    ensures
        0 <= seam_support(pairwise, cut) <= total_matches(pairwise),
        -total_matches(pairwise) <= support_step(pairwise, cut) <= total_matches(pairwise),
    decreases pairwise.len(),
{
    if pairwise.len() > 0 {
        lemma_support_bounds(pairwise.drop_last(), cut);
    }
}

proof fn lemma_total_matches_grows(pairwise: Seq<PairwiseMatches>, k: int)
    requires
        0 <= k <= pairwise.len(),
    ensures
        0 <= total_matches(pairwise.take(k)) <= total_matches(pairwise),
    decreases pairwise.len(),
{
    if k == pairwise.len() {
        assert(pairwise.take(k) =~= pairwise);
        if k > 0 {
            lemma_total_matches_grows(pairwise.drop_last(), k - 1);
            assert(pairwise.drop_last().take(k - 1) =~= pairwise.drop_last());
        }
    } else {
        lemma_total_matches_grows(pairwise.drop_last(), k);
        assert(pairwise.drop_last().take(k) =~= pairwise.take(k));
    }
}

/// The seam support of every cut `0..=image_count`, from one pass over the pairs.
pub fn seam_support_by_cut(image_count: usize, pairwise: &[PairwiseMatches]) -> (support: Vec<usize>)
    requires
        image_count < usize::MAX,
        pairs_in_range(pairwise@, image_count as int),
        total_matches(pairwise@) <= usize::MAX,
    ensures
        support.len() == image_count + 1,
        forall|cut: int|
            0 <= cut <= image_count ==> #[trigger] support[cut] == seam_support(pairwise@, cut),
{
    let mut difference: Vec<i128> = Vec::new();
    let mut fill: usize = 0;
    while fill < image_count + 1
        invariant
            fill <= image_count + 1,
            image_count < usize::MAX,
            difference.len() == fill,
            forall|cut: int| 0 <= cut < fill ==> #[trigger] difference[cut] == 0,
        decreases image_count + 1 - fill,
    {
        difference.push(0);
        fill += 1;
    }
    let mut k: usize = 0;
    while k < pairwise.len()
        invariant
            k <= pairwise.len(),
            image_count < usize::MAX,
            pairs_in_range(pairwise@, image_count as int),
            total_matches(pairwise@) <= usize::MAX,
            difference.len() == image_count + 1,
            forall|cut: int|
                0 <= cut <= image_count ==> #[trigger] difference[cut] == support_step(
                    pairwise@.take(k as int),
                    cut,
                ),
        decreases pairwise.len() - k,
    {
        let pair = &pairwise[k];
        let left: usize = if pair.image_i <= pair.image_j { pair.image_i } else { pair.image_j };
        let right: usize = if pair.image_i <= pair.image_j { pair.image_j } else { pair.image_i };
        let support: i128 = pair.matches.len() as i128;
        let ghost before = difference@;
        proof {
            lemma_total_matches_grows(pairwise@, k as int);
            lemma_support_bounds(pairwise@.take(k as int), left + 1);
            lemma_support_bounds(pairwise@.take(k as int), right + 1);
            assert(pairwise@.take(k + 1).drop_last() =~= pairwise@.take(k as int));
            assert(pairwise@.take(k + 1).last() == pairwise[k as int]);
        }
        let raised: i128 = difference[left + 1] + support;
        difference.set(left + 1, raised);
        let lowered: i128 = difference[right + 1] - support;
        difference.set(right + 1, lowered);
        k += 1;
    }
    let mut result: Vec<usize> = Vec::new();
    let mut active: i128 = 0;
    let mut cut: usize = 0;
    proof {
        assert(pairwise@.take(pairwise.len() as int) =~= pairwise@);
        lemma_support_at_zero(pairwise@);
    }
    while cut < difference.len()
        invariant
            cut <= difference.len(),
            difference.len() == image_count + 1,
            image_count < usize::MAX,
            total_matches(pairwise@) <= usize::MAX,
            result.len() == cut,
            active == seam_support(pairwise@, cut - 1),
            forall|c: int|
                0 <= c <= image_count ==> #[trigger] difference[c] == support_step(pairwise@, c),
            forall|c: int| 0 <= c < cut ==> #[trigger] result[c] == seam_support(pairwise@, c),
        decreases difference.len() - cut,
    {
        proof {
            lemma_support_step(pairwise@, cut as int);
            lemma_support_bounds(pairwise@, cut as int);
            lemma_support_bounds(pairwise@, cut - 1);
        }
        active = active + difference[cut];
        result.push(active as usize);
        cut += 1;
    }
    result
}

/// Where the window that starts at `start` would preferably end.
pub open spec fn target_cut(start: int, image_count: int, config: AdaptiveSubmapPartitionConfig) -> int {
    if start + config.target_images <= image_count {
        start + config.target_images
    } else {
        image_count
    }
}

/// The cut lies in the search interval of the window that starts at `start`: near
/// the target, between the smallest and largest window, and inside the sequence.
pub open spec fn in_search_interval(
    cut: int,
    start: int,
    image_count: int,
    config: AdaptiveSubmapPartitionConfig,
) -> bool {
    let target = target_cut(start, image_count, config);
    &&& target - config.boundary_search_radius <= cut <= target + config.boundary_search_radius
    &&& start + config.min_images <= cut <= start + config.max_images
    &&& cut <= image_count
}

/// A cut that may end the window: in the search interval, and leaving a next
/// window of at least the smallest permitted size.
pub open spec fn admissible_cut(
    cut: int,
    start: int,
    image_count: int,
    config: AdaptiveSubmapPartitionConfig,
) -> bool {
    in_search_interval(cut, start, image_count, config) && image_count - (cut
        - config.overlap_images) >= config.min_images
}

pub open spec fn distance(a: int, b: int) -> int {
    if a <= b {
        b - a
    } else {
        a - b
    }
}

/// `cut` is the better boundary: a higher seam score, on equal scores closer to
/// the target, and on equal distances the earlier cut.
pub open spec fn better_cut(cut: int, other: int, target: int, scores: Seq<Scalar>) -> bool {
    let rank = scores[cut].total_rank();
    let other_rank = scores[other].total_rank();
    ||| rank > other_rank
    ||| rank == other_rank && distance(cut, target) < distance(other, target)
    ||| rank == other_rank && distance(cut, target) == distance(other, target) && cut < other
}

/// `end` ends the window that starts at `start`: the best admissible cut, or, with
/// none, the end of the largest permitted window.
pub open spec fn is_boundary(
    end: int,
    start: int,
    image_count: int,
    config: AdaptiveSubmapPartitionConfig,
    scores: Seq<Scalar>,
) -> bool {
    if exists|cut: int| admissible_cut(cut, start, image_count, config) {
        &&& admissible_cut(end, start, image_count, config)
        &&& forall|cut: int|
            #![trigger admissible_cut(cut, start, image_count, config)]
            admissible_cut(cut, start, image_count, config) && cut != end ==> better_cut(
                end,
                cut,
                target_cut(start, image_count, config),
                scores,
            )
    } else {
        end == if start + config.max_images <= image_count {
            start + config.max_images
        } else {
            image_count as int
        }
    }
}

/// `windows` is the partition of a sequence of `image_count` images.
pub open spec fn is_partition(
    windows: Seq<SubmapWindow>,
    image_count: int,
    pairwise: Seq<PairwiseMatches>,
    config: AdaptiveSubmapPartitionConfig,
    scores: Seq<Scalar>,
) -> bool {
    if image_count == 0 {
        windows.len() == 0
    } else {
        &&& windows.len() > 0
        &&& windows[0].image_range.start == 0
        &&& windows.last().image_range.end == image_count
        &&& windows.last().outgoing_seam_support == 0
        &&& image_count - windows.last().image_range.start <= config.max_images
        &&& forall|k: int|
            #![trigger windows[k]]
            0 <= k < windows.len() - 1 ==> window_is_cut(
                windows,
                k,
                image_count,
                pairwise,
                config,
                scores,
            )
    }
}

/// Window `k`, which is not the last, ends at its boundary; the next one starts
/// `overlap_images` before that.
pub open spec fn window_is_cut(
    windows: Seq<SubmapWindow>,
    k: int,
    image_count: int,
    pairwise: Seq<PairwiseMatches>,
    config: AdaptiveSubmapPartitionConfig,
    scores: Seq<Scalar>,
) -> bool {
    let range = windows[k].image_range;
    &&& image_count - range.start > config.max_images
    &&& is_boundary(range.end as int, range.start as int, image_count, config, scores)
    &&& windows[k].outgoing_seam_support == seam_support(pairwise, range.end as int)
    &&& windows[k + 1].image_range.start == range.end - config.overlap_images
}

/// The first image reference that is out of range, in pair order, `image_i`
/// before `image_j`.
pub open spec fn is_first_bad_pair(
    pairwise: Seq<PairwiseMatches>,
    image_count: int,
    pair_index: int,
    image_index: int,
) -> bool {
    &&& 0 <= pair_index < pairwise.len()
    &&& pairs_in_range(pairwise.take(pair_index), image_count)
    &&& image_index >= image_count
    &&& image_index == (if pairwise[pair_index].image_i >= image_count {
        pairwise[pair_index].image_i as int
    } else {
        pairwise[pair_index].image_j as int
    })
}

fn choose_boundary(
    start: usize,
    image_count: usize,
    config: &AdaptiveSubmapPartitionConfig,
    scores: &[Scalar],
) -> (end: usize)
    requires
        config.valid(),
        start + config.max_images < image_count < scores.len(),
    ensures
        is_boundary(end as int, start as int, image_count as int, *config, scores@),
        start + config.min_images <= end <= start + config.max_images,
{
    let target: usize = start + config.target_images;
    let nearest: usize = if target >= config.boundary_search_radius {
        target - config.boundary_search_radius
    } else {
        0
    };
    let lower: usize = if nearest >= start + config.min_images {
        nearest
    } else {
        start + config.min_images
    };
    let upper: usize = if config.boundary_search_radius <= start + config.max_images - target {
        target + config.boundary_search_radius
    } else {
        start + config.max_images
    };
    let mut best: Option<usize> = None;
    let mut cut: usize = lower;
    assert(forall|c: int|
        in_search_interval(c, start as int, image_count as int, *config) <==> lower <= c <= upper);
    while cut <= upper
        invariant
            config.valid(),
            start + config.max_images < image_count < scores.len(),
            target == target_cut(start as int, image_count as int, *config),
            lower <= cut <= upper + 1,
            start + config.min_images <= lower,
            upper <= start + config.max_images,
            forall|c: int|
                in_search_interval(c, start as int, image_count as int, *config) <==> lower <= c
                    <= upper,
            match best {
                Some(b) => {
                    &&& b < cut
                    &&& admissible_cut(b as int, start as int, image_count as int, *config)
                    &&& forall|c: int|
                        #![trigger admissible_cut(c, start as int, image_count as int, *config)]
                        c < cut && c != b && admissible_cut(
                            c,
                            start as int,
                            image_count as int,
                            *config,
                        ) ==> better_cut(b as int, c, target as int, scores@)
                },
                None => forall|c: int|
                    c < cut ==> !admissible_cut(c, start as int, image_count as int, *config),
            },
        decreases upper + 1 - cut,
    {
        if image_count - (cut - config.overlap_images) >= config.min_images {
            assert(admissible_cut(cut as int, start as int, image_count as int, *config));
            let take: bool = match best {
                None => true,
                Some(b) => {
                    let rank: i128 = scores[cut].total_rank();
                    let best_rank: i128 = scores[b].total_rank();
                    let gap: usize = if cut <= target { target - cut } else { cut - target };
                    let best_gap: usize = if b <= target { target - b } else { b - target };
                    rank > best_rank || (rank == best_rank && gap < best_gap)
                },
            };
            if take {
                best = Some(cut);
            }
        }
        cut += 1;
    }
    match best {
        Some(end) => end,
        None => start + config.max_images,
    }
}

/// What is wrong with the settings or the pairs, if anything is.
pub open spec fn is_input_error(
    pairwise: Seq<PairwiseMatches>,
    image_count: int,
    config: AdaptiveSubmapPartitionConfig,
    error: SubmapPartitionError,
) -> bool {
    if !config.valid() {
        error == (if config.min_images == 0 {
            SubmapPartitionError::ZeroMinimum
        } else if !(config.min_images <= config.target_images <= config.max_images) {
            SubmapPartitionError::InvalidSizeOrder
        } else {
            SubmapPartitionError::OverlapTooLarge
        })
    } else {
        error matches SubmapPartitionError::PairImageOutOfRange {
            pair_index,
            image_index,
            image_count: count,
        } && count == image_count && is_first_bad_pair(
            pairwise,
            image_count,
            pair_index as int,
            image_index as int,
        )
    }
}

fn check_inputs(
    image_count: usize,
    pairwise: &[PairwiseMatches],
    config: &AdaptiveSubmapPartitionConfig,
) -> (result: Result<(), SubmapPartitionError>)
    ensures
        result is Ok <==> config.valid() && pairs_in_range(pairwise@, image_count as int),
        result matches Err(error) ==> is_input_error(
            pairwise@,
            image_count as int,
            *config,
            error,
        ),
{
    match validate_config(config) {
        Ok(()) => {},
        Err(error) => {
            return Err(error);
        },
    }
    let mut k: usize = 0;
    while k < pairwise.len()
        invariant
            k <= pairwise.len(),
            config.valid(),
            pairs_in_range(pairwise@.take(k as int), image_count as int),
        decreases pairwise.len() - k,
    {
        let image_i: usize = pairwise[k].image_i;
        let image_j: usize = pairwise[k].image_j;
        if image_i >= image_count || image_j >= image_count {
            let image_index: usize = if image_i >= image_count { image_i } else { image_j };
            assert(is_first_bad_pair(
                pairwise@,
                image_count as int,
                k as int,
                image_index as int,
            ));
            return Err(
                SubmapPartitionError::PairImageOutOfRange {
                    pair_index: k,
                    image_index,
                    image_count,
                },
            );
        }
        proof {
            let shorter = pairwise@.take(k as int);
            let longer = pairwise@.take(k + 1);
            assert forall|m: int| 0 <= m < longer.len() implies (#[trigger] longer[m]).image_i
                < image_count && longer[m].image_j < image_count by {
                if m < k {
                    assert(longer[m] == shorter[m]);
                }
            }
        }
        k += 1;
    }
    assert(pairwise@.take(pairwise.len() as int) =~= pairwise@);
    Ok(())
}

/// `scores` weighs the support of every seam by its quality.
pub open spec fn are_seam_scores<G>(
    weigh: G,
    pairwise: Seq<PairwiseMatches>,
    hints: AdaptiveSubmapPartitionHints,
    image_count: int,
    scores: Seq<Scalar>,
) -> bool where G: Fn(usize, Scalar) -> Scalar {
    &&& scores.len() == image_count + 1
    &&& forall|cut: int|
        0 <= cut <= image_count ==> call_ensures(
            weigh,
            (seam_support(pairwise, cut) as usize, hints.quality(cut)),
            #[trigger] scores[cut],
        )
}

/// The score of every seam; `weigh` multiplies a support with a quality.
pub fn score_seams<G>(
    image_count: usize,
    pairwise: &[PairwiseMatches],
    hints: &AdaptiveSubmapPartitionHints,
    weigh: &G,
) -> (scores: Vec<Scalar>) where G: Fn(usize, Scalar) -> Scalar
    requires
        image_count < usize::MAX,
        pairs_in_range(pairwise@, image_count as int),
        total_matches(pairwise@) <= usize::MAX,
        forall|support: usize, quality: Scalar| call_requires(*weigh, (support, quality)),
    ensures
        are_seam_scores(*weigh, pairwise@, *hints, image_count as int, scores@),
{
    let support = seam_support_by_cut(image_count, pairwise);
    let mut scores: Vec<Scalar> = Vec::new();
    let mut cut: usize = 0;
    while cut < support.len()
        invariant
            cut <= support.len(),
            support.len() == image_count + 1,
            forall|c: int|
                0 <= c <= image_count ==> #[trigger] support[c] == seam_support(pairwise@, c),
            forall|s: usize, quality: Scalar| call_requires(*weigh, (s, quality)),
            scores.len() == cut,
            forall|c: int|
                0 <= c < cut ==> call_ensures(
                    *weigh,
                    (seam_support(pairwise@, c) as usize, hints.quality(c)),
                    #[trigger] scores@[c],
                ),
        decreases support.len() - cut,
    {
        let ghost before = scores@;
        let score = weigh(support[cut], hints.quality_at(cut));
        scores.push(score);
        assert forall|c: int| 0 <= c < cut + 1 implies call_ensures(
            *weigh,
            (seam_support(pairwise@, c) as usize, hints.quality(c)),
            #[trigger] scores@[c],
        ) by {
            if c < cut {
                assert(scores@[c] == before[c]);
            }
        }
        cut += 1;
    }
    scores
}

/// The windows partition the sequence by the scores that its seams have.
pub open spec fn is_hinted_partition<G>(
    weigh: G,
    pairwise: Seq<PairwiseMatches>,
    hints: AdaptiveSubmapPartitionHints,
    image_count: int,
    config: AdaptiveSubmapPartitionConfig,
    windows: Seq<SubmapWindow>,
) -> bool where G: Fn(usize, Scalar) -> Scalar {
    exists|scores: Seq<Scalar>|
        (image_count > config.max_images ==> are_seam_scores(
            weigh,
            pairwise,
            hints,
            image_count,
            scores,
        )) && #[trigger] is_partition(windows, image_count, pairwise, config, scores)
}

/// Partitions an ordered sequence into contiguous overlapping windows. `weigh` multiplies
/// the support of a seam with its quality; seams are scored only where the sequence does
/// not fit into one window.
pub fn partition_ordered_submaps<G>(
    image_count: usize,
    pairwise: &[PairwiseMatches],
    config: &AdaptiveSubmapPartitionConfig,
    hints: &AdaptiveSubmapPartitionHints,
    weigh: G,
) -> (result: Result<Vec<SubmapWindow>, SubmapPartitionError>) where
    G: Fn(usize, Scalar) -> Scalar,

    requires
        image_count > config.max_images ==> image_count < usize::MAX && total_matches(pairwise@)
            <= usize::MAX,
        forall|support: usize, quality: Scalar| call_requires(weigh, (support, quality)),
    ensures
        result is Ok <==> config.valid() && pairs_in_range(pairwise@, image_count as int),
        result matches Ok(windows) ==> is_hinted_partition(
            weigh,
            pairwise@,
            *hints,
            image_count as int,
            *config,
            windows@,
        ),
        result matches Err(error) ==> is_input_error(
            pairwise@,
            image_count as int,
            *config,
            error,
        ),
{
    match check_inputs(image_count, pairwise, config) {
        Ok(()) => {},
        Err(error) => {
            return Err(error);
        },
    }
    let scores: Vec<Scalar> = if image_count > config.max_images {
        score_seams(image_count, pairwise, hints, &weigh)
    } else {
        Vec::new()
    };
    let windows = partition_by_scores(image_count, pairwise, config, scores.as_slice());
    assert(is_partition(windows@, image_count as int, pairwise@, *config, scores@));
    Ok(windows)
}

/// Partitions an ordered sequence, given the score of every seam. The scores are read only
/// where the sequence does not fit into one window.
pub fn partition_by_scores(
    image_count: usize,
    pairwise: &[PairwiseMatches],
    config: &AdaptiveSubmapPartitionConfig,
    seam_scores: &[Scalar],
) -> (windows: Vec<SubmapWindow>)
    requires
        config.valid(),
        pairs_in_range(pairwise@, image_count as int),
        image_count > config.max_images ==> image_count < seam_scores.len() && total_matches(
            pairwise@,
        ) <= usize::MAX,
    ensures
        is_partition(windows@, image_count as int, pairwise@, *config, seam_scores@),
{
    let mut windows: Vec<SubmapWindow> = Vec::new();
    if image_count == 0 {
        return windows;
    }
    if image_count <= config.max_images {
        windows.push(SubmapWindow { image_range: 0..image_count, outgoing_seam_support: 0 });
        return windows;
    }
    let support = seam_support_by_cut(image_count, pairwise);
    let mut start: usize = 0;
    while image_count - start > config.max_images
        invariant
            config.valid(),
            start < image_count,
            image_count > config.max_images,
            image_count < seam_scores.len(),
            support.len() == image_count + 1,
            forall|cut: int|
                0 <= cut <= image_count ==> #[trigger] support[cut] == seam_support(pairwise@, cut),
            windows.len() == 0 ==> start == 0,
            windows.len() > 0 ==> windows[0].image_range.start == 0
                && windows@.last().image_range.end - config.overlap_images == start,
            forall|m: int|
                #![trigger windows@[m]]
                0 <= m < windows.len() ==> {
                    let range = windows@[m].image_range;
                    &&& image_count - range.start > config.max_images
                    &&& is_boundary(
                        range.end as int,
                        range.start as int,
                        image_count as int,
                        *config,
                        seam_scores@,
                    )
                    &&& windows@[m].outgoing_seam_support == seam_support(
                        pairwise@,
                        range.end as int,
                    )
                    &&& m + 1 < windows.len() ==> windows@[m + 1].image_range.start == range.end
                        - config.overlap_images
                },
        decreases image_count - start,
    {
        let end: usize = choose_boundary(start, image_count, config, seam_scores);
        windows.push(
            SubmapWindow { image_range: start..end, outgoing_seam_support: support[end] },
        );
        start = end - config.overlap_images;
    }
    windows.push(SubmapWindow { image_range: start..image_count, outgoing_seam_support: 0 });
    windows
}

/// The partition covers the sequence: it begins at the first image, ends at the
/// last one, every window shares exactly `overlap_images` images with the next
/// one, and no window exceeds `max_images`. All windows but the last have at least
/// `min_images`, and the last one reaches beyond the overlap.
pub proof fn partition_covers_the_sequence(
    windows: Seq<SubmapWindow>,
    image_count: int,
    pairwise: Seq<PairwiseMatches>,
    config: AdaptiveSubmapPartitionConfig,
    scores: Seq<Scalar>,
)
    requires
        config.valid(),
        image_count > 0,
        is_partition(windows, image_count, pairwise, config, scores),
    ensures
        windows[0].image_range.start == 0,
        windows.last().image_range.end == image_count,
        chained(windows, config.overlap_images as int),
        forall|k: int|
            0 <= k < windows.len() ==> range_len((#[trigger] windows[k]).image_range)
                <= config.max_images,
        forall|k: int|
            0 <= k < windows.len() - 1 ==> range_len((#[trigger] windows[k]).image_range)
                >= config.min_images,
        windows.len() > 1 ==> range_len(windows.last().image_range) > config.overlap_images,
        forall|k: int|
            #![trigger windows[k]]
            0 <= k < windows.len() - 1 ==> windows[k].image_range.start
                < windows[k + 1].image_range.start,
{
    assert forall|k: int| 0 <= k < windows.len() - 1 implies {
        &&& config.min_images <= range_len((#[trigger] windows[k]).image_range)
            <= config.max_images
        &&& windows[k].image_range.end < image_count
    } by {
        assert(window_is_cut(windows, k, image_count, pairwise, config, scores));
        lemma_boundary_is_in_reach(
            windows[k].image_range.end as int,
            windows[k].image_range.start as int,
            image_count,
            config,
            scores,
        );
    }
    if windows.len() > 1 {
        let k = windows.len() - 2;
        assert(window_is_cut(windows, k, image_count, pairwise, config, scores));
        assert(windows[k].image_range.end < image_count);
    }
}

/// Where the smallest boundary in reach always leaves room for another window, no
/// window of the partition is shorter than `min_images`, the last one neither.
pub proof fn partition_has_no_short_tail(
    windows: Seq<SubmapWindow>,
    image_count: int,
    pairwise: Seq<PairwiseMatches>,
    config: AdaptiveSubmapPartitionConfig,
    scores: Seq<Scalar>,
)
    requires
        config.valid(),
        image_count > config.max_images,
        config.target_images - config.boundary_search_radius + config.min_images
            <= config.max_images + 1 + config.overlap_images,
        2 * config.min_images <= config.max_images + 1 + config.overlap_images,
        is_partition(windows, image_count, pairwise, config, scores),
    ensures
        forall|k: int|
            0 <= k < windows.len() ==> range_len((#[trigger] windows[k]).image_range)
                >= config.min_images,
{
    partition_covers_the_sequence(windows, image_count, pairwise, config, scores);
    if windows.len() > 1 {
        let k = windows.len() - 2;
        assert(window_is_cut(windows, k, image_count, pairwise, config, scores));
        let start = windows[k].image_range.start as int;
        let nearest = start + config.target_images - config.boundary_search_radius;
        let cut = if nearest >= start + config.min_images {
            nearest
        } else {
            start + config.min_images
        };
        assert(admissible_cut(cut, start, image_count, config));
        assert(windows.last() == windows[k + 1]);
    }
}

proof fn lemma_boundary_is_in_reach(
    end: int,
    start: int,
    image_count: int,
    config: AdaptiveSubmapPartitionConfig,
    scores: Seq<Scalar>,
)
    requires
        config.valid(),
        image_count - start > config.max_images,
        is_boundary(end, start, image_count, config, scores),
    ensures
        start + config.min_images <= end <= start + config.max_images < image_count,
{
}

/// A sequence has only one partition.
pub proof fn partition_is_unique(
    left: Seq<SubmapWindow>,
    right: Seq<SubmapWindow>,
    image_count: int,
    pairwise: Seq<PairwiseMatches>,
    config: AdaptiveSubmapPartitionConfig,
    scores: Seq<Scalar>,
)
    requires
        config.valid(),
        is_partition(left, image_count, pairwise, config, scores),
        is_partition(right, image_count, pairwise, config, scores),
    ensures
        left == right,
{
    if image_count != 0 {
        let shorter = if left.len() <= right.len() {
            left.len() as int
        } else {
            right.len() as int
        };
        lemma_partitions_agree(left, right, image_count, pairwise, config, scores, shorter - 1);
        if left.len() < right.len() {
            assert(window_is_cut(right, shorter - 1, image_count, pairwise, config, scores));
        }
        if right.len() < left.len() {
            assert(window_is_cut(left, shorter - 1, image_count, pairwise, config, scores));
        }
        assert forall|k: int| 0 <= k < left.len() implies left[k] == right[k] by {
            lemma_partitions_agree(left, right, image_count, pairwise, config, scores, k);
            if k < left.len() - 1 {
                assert(window_is_cut(left, k, image_count, pairwise, config, scores));
                assert(window_is_cut(right, k, image_count, pairwise, config, scores));
                lemma_boundary_is_unique(
                    left[k].image_range.end as int,
                    right[k].image_range.end as int,
                    left[k].image_range.start as int,
                    image_count,
                    config,
                    scores,
                );
            }
        }
    }
}

proof fn lemma_boundary_is_unique(
    left: int,
    right: int,
    start: int,
    image_count: int,
    config: AdaptiveSubmapPartitionConfig,
    scores: Seq<Scalar>,
)
    requires
        is_boundary(left, start, image_count, config, scores),
        is_boundary(right, start, image_count, config, scores),
    ensures
        left == right,
{
}

proof fn lemma_partitions_agree(
    left: Seq<SubmapWindow>,
    right: Seq<SubmapWindow>,
    image_count: int,
    pairwise: Seq<PairwiseMatches>,
    config: AdaptiveSubmapPartitionConfig,
    scores: Seq<Scalar>,
    k: int,
)
    requires
        image_count != 0,
        is_partition(left, image_count, pairwise, config, scores),
        is_partition(right, image_count, pairwise, config, scores),
        0 <= k < left.len(),
        k < right.len(),
    ensures
        left[k].image_range.start == right[k].image_range.start,
    decreases k,
{
    if k > 0 {
        lemma_partitions_agree(left, right, image_count, pairwise, config, scores, k - 1);
        assert(window_is_cut(left, k - 1, image_count, pairwise, config, scores));
        assert(window_is_cut(right, k - 1, image_count, pairwise, config, scores));
        lemma_boundary_is_unique(
            left[k - 1].image_range.end as int,
            right[k - 1].image_range.end as int,
            left[k - 1].image_range.start as int,
            image_count,
            config,
            scores,
        );
    }
}

/// Consecutive windows share exactly `overlap` images.
pub open spec fn chained(windows: Seq<SubmapWindow>, overlap: int) -> bool {
    forall|k: int|
        #![trigger windows[k]]
        0 <= k < windows.len() - 1 ==> windows[k].image_range.end
            == windows[k + 1].image_range.start + overlap
}

/// A pair with its images and correspondences as plain values.
pub open spec fn pair_view(pair: PairwiseMatches) -> (int, int, Seq<(usize, usize)>) {
    (pair.image_i as int, pair.image_j as int, pair.matches@)
}

/// Both images of the pair lie in the range.
pub open spec fn is_internal(pair: PairwiseMatches, range: Range<usize>) -> bool {
    range.start <= pair.image_i < range.end && range.start <= pair.image_j < range.end
}

/// The pairs inside the range, in order, with indices counted from its start.
pub open spec fn internal_pairs(pairwise: Seq<PairwiseMatches>, range: Range<usize>) -> Seq<
    (int, int, Seq<(usize, usize)>),
>
    decreases pairwise.len(),
{
    if pairwise.len() == 0 {
        Seq::empty()
    } else if is_internal(pairwise.last(), range) {
        internal_pairs(pairwise.drop_last(), range).push(
            (
                pairwise.last().image_i - range.start,
                pairwise.last().image_j - range.start,
                pairwise.last().matches@,
            ),
        )
    } else {
        internal_pairs(pairwise.drop_last(), range)
    }
}

fn copy_matches(matches: &Vec<(usize, usize)>) -> (copy: Vec<(usize, usize)>)
    ensures
        copy@ == matches@,
{
    let mut copy: Vec<(usize, usize)> = Vec::new();
    let mut k: usize = 0;
    while k < matches.len()
        invariant
            k <= matches.len(),
            copy@ == matches@.take(k as int),
        decreases matches.len() - k,
    {
        copy.push(matches[k]);
        k += 1;
    }
    assert(matches@.take(matches.len() as int) =~= matches@);
    copy
}

/// Selects verified pairs and remaps them to one window's local image indices.
pub fn remap_pairs_to_submap(pairwise: &[PairwiseMatches], image_range: Range<usize>) -> (local: Vec<
    PairwiseMatches,
>)
    ensures
        local@.map_values(|pair: PairwiseMatches| pair_view(pair)) == internal_pairs(
            pairwise@,
            image_range,
        ),
{
    let mut local: Vec<PairwiseMatches> = Vec::new();
    let mut k: usize = 0;
    let ghost to_view = |pair: PairwiseMatches| pair_view(pair);
    while k < pairwise.len()
        invariant
            k <= pairwise.len(),
            to_view == (|pair: PairwiseMatches| pair_view(pair)),
            local@.map_values(to_view) == internal_pairs(pairwise@.take(k as int), image_range),
        decreases pairwise.len() - k,
    {
        let pair = &pairwise[k];
        let ghost before = local@;
        proof {
            assert(pairwise@.take(k + 1).drop_last() =~= pairwise@.take(k as int));
            assert(pairwise@.take(k + 1).last() == pairwise[k as int]);
        }
        if image_range.start <= pair.image_i && pair.image_i < image_range.end && image_range.start
            <= pair.image_j && pair.image_j < image_range.end {
            local.push(
                PairwiseMatches {
                    image_i: pair.image_i - image_range.start,
                    image_j: pair.image_j - image_range.start,
                    matches: copy_matches(&pair.matches),
                },
            );
            assert(local@.map_values(to_view) =~= before.map_values(to_view).push(
                to_view(local@.last()),
            ));
        }
        k += 1;
    }
    assert(pairwise@.take(pairwise.len() as int) =~= pairwise@);
    local
}

/// A hint that says nothing: it is missing, not finite, or negative.
pub open spec fn is_unusable(hints: AdaptiveSubmapPartitionHints, cut: int) -> bool {
    let list = hints.boundary_quality_by_cut;
    !(0 <= cut < list.len() && list[cut].is_finite() && Scalar::zero().le(list[cut]))
}

/// `right` has one in place of every unusable hint of `left`, and perhaps ones after them.
pub open spec fn are_filled_in(
    left: AdaptiveSubmapPartitionHints,
    right: AdaptiveSubmapPartitionHints,
) -> bool {
    let list = right.boundary_quality_by_cut;
    &&& left.boundary_quality_by_cut.len() <= list.len()
    &&& forall|cut: int|
        0 <= cut < list.len() ==> #[trigger] list[cut] == (if is_unusable(left, cut) {
            Scalar::one()
        } else {
            left.boundary_quality_by_cut[cut]
        })
}

/// Unusable hints weigh their seams by one, as missing ones do: filling them in with ones, and
/// appending ones, leaves the quality of every cut as it was.
pub proof fn unusable_hints_weigh_one(
    left: AdaptiveSubmapPartitionHints,
    right: AdaptiveSubmapPartitionHints,
)
    requires
        are_filled_in(left, right),
    ensures
        forall|cut: int| is_unusable(left, cut) ==> #[trigger] left.quality(cut) == Scalar::one(),
        forall|cut: int| #[trigger] left.quality(cut) == right.quality(cut),
{
    assert(Scalar::one().is_finite() && Scalar::zero().le(Scalar::one()));
    assert forall|cut: int| #[trigger] left.quality(cut) == right.quality(cut) by {
        let list = right.boundary_quality_by_cut;
        if 0 <= cut < list.len() {
            assert(list[cut] == list[cut]);
        }
    }
}

/// The weight of a seam depends on its support and quality alone.
pub open spec fn weighs_alike<G>(weigh: G) -> bool where G: Fn(usize, Scalar) -> Scalar {
    forall|support: usize, quality: Scalar, a: Scalar, b: Scalar|
        #![trigger call_ensures(weigh, (support, quality), a), call_ensures(
            weigh,
            (support, quality),
            b,
        )]
        call_ensures(weigh, (support, quality), a) && call_ensures(weigh, (support, quality), b)
            ==> a == b
}

/// Hints of the same quality at every cut give the same partition, where the weight of a
/// seam depends on its support and quality alone. With [`unusable_hints_weigh_one`]: a hint
/// that is unusable or missing is neutral.
pub proof fn unusable_hints_are_neutral<G>(
    weigh: G,
    pairwise: Seq<PairwiseMatches>,
    left: AdaptiveSubmapPartitionHints,
    right: AdaptiveSubmapPartitionHints,
    image_count: int,
    config: AdaptiveSubmapPartitionConfig,
    left_windows: Seq<SubmapWindow>,
    right_windows: Seq<SubmapWindow>,
) where G: Fn(usize, Scalar) -> Scalar
    requires
        config.valid(),
        weighs_alike(weigh),
        forall|cut: int|
            0 <= cut <= image_count ==> #[trigger] left.quality(cut) == right.quality(cut),
        is_hinted_partition(weigh, pairwise, left, image_count, config, left_windows),
        is_hinted_partition(weigh, pairwise, right, image_count, config, right_windows),
    ensures
        left_windows == right_windows,
{
    let left_scores = choose|scores: Seq<Scalar>|
        (image_count > config.max_images ==> are_seam_scores(
            weigh,
            pairwise,
            left,
            image_count,
            scores,
        )) && #[trigger] is_partition(left_windows, image_count, pairwise, config, scores);
    let right_scores = choose|scores: Seq<Scalar>|
        (image_count > config.max_images ==> are_seam_scores(
            weigh,
            pairwise,
            right,
            image_count,
            scores,
        )) && #[trigger] is_partition(right_windows, image_count, pairwise, config, scores);
    if image_count > config.max_images {
        assert forall|cut: int| 0 <= cut <= image_count implies #[trigger] left_scores[cut]
            == right_scores[cut] by {
            assert(left.quality(cut) == right.quality(cut));
        }
        assert(left_scores =~= right_scores);
    } else if image_count != 0 {
        assert(left_windows.len() == 1) by {
            if left_windows.len() > 1 {
                assert(window_is_cut(
                    left_windows,
                    0,
                    image_count,
                    pairwise,
                    config,
                    left_scores,
                ));
            }
        }
        assert(is_partition(left_windows, image_count, pairwise, config, right_scores));
    }
    partition_is_unique(
        left_windows,
        right_windows,
        image_count,
        pairwise,
        config,
        right_scores,
    );
}

/// The cut is in reach of a window that starts at `start`: within the search radius of the
/// target, with a size that is allowed, and with enough images left for another window.
pub open spec fn is_in_reach(
    cut: int,
    start: int,
    image_count: int,
    config: AdaptiveSubmapPartitionConfig,
) -> bool {
    let target = start + config.target_images;
    let clipped = if target < image_count {
        target
    } else {
        image_count
    };
    &&& -config.boundary_search_radius <= cut - clipped <= config.boundary_search_radius
    &&& config.min_images <= cut - start <= config.max_images
    &&& cut <= image_count
    &&& image_count - cut + config.overlap_images >= config.min_images
}

/// A window that is followed by another ends at the best cut in reach: none in reach has a
/// higher score; none of the same score is nearer to the target size; and none of the same
/// score that is as near comes earlier. Where no cut is in reach the window is as long as is
/// allowed.
pub proof fn windows_end_at_the_best_cut(
    windows: Seq<SubmapWindow>,
    image_count: int,
    pairwise: Seq<PairwiseMatches>,
    config: AdaptiveSubmapPartitionConfig,
    scores: Seq<Scalar>,
    k: int,
    cut: int,
)
    requires
        config.valid(),
        image_count > 0,
        is_partition(windows, image_count, pairwise, config, scores),
        0 <= k < windows.len() - 1,
    ensures
        ({
            let start = windows[k].image_range.start as int;
            let end = windows[k].image_range.end as int;
            let target = start + config.target_images;
            let clipped = if target < image_count {
                target
            } else {
                image_count
            };
            let off = if end < clipped {
                clipped - end
            } else {
                end - clipped
            };
            let other_off = if cut < clipped {
                clipped - cut
            } else {
                cut - clipped
            };
            &&& is_in_reach(cut, start, image_count, config) ==> {
                &&& is_in_reach(end, start, image_count, config)
                &&& scores[cut].total_rank() <= scores[end].total_rank()
                &&& !scores[end].lt(scores[cut])
                &&& scores[cut] == scores[end] ==> off <= other_off
                &&& scores[cut] == scores[end] && off == other_off ==> end <= cut
            }
            &&& (forall|other: int| !#[trigger] is_in_reach(other, start, image_count, config))
                ==> end == start + config.max_images
            &&& image_count - start > config.max_images
            &&& windows[k + 1].image_range.start + config.overlap_images == end
        }),
{
    let start = windows[k].image_range.start as int;
    let end = windows[k].image_range.end as int;
    assert(window_is_cut(windows, k, image_count, pairwise, config, scores));
    assert forall|other: int| #[trigger]
        is_in_reach(other, start, image_count, config) == admissible_cut(
            other,
            start,
            image_count,
            config,
        ) by {}
    if is_in_reach(cut, start, image_count, config) {
        assert(admissible_cut(cut, start, image_count, config));
        crate::scalar::total_order_laws(scores[end], scores[cut]);
        crate::scalar::total_order_laws(scores[cut], scores[end]);
    }
    if forall|other: int| !#[trigger] is_in_reach(other, start, image_count, config) {
        assert forall|other: int| !admissible_cut(other, start, image_count, config) by {
            assert(!is_in_reach(other, start, image_count, config));
        }
    }
}

/// One window suffices exactly where the images fit into it; no images give no window. The
/// last window leads to no other.
pub proof fn short_sequences_are_one_window(
    windows: Seq<SubmapWindow>,
    image_count: int,
    pairwise: Seq<PairwiseMatches>,
    config: AdaptiveSubmapPartitionConfig,
    scores: Seq<Scalar>,
)
    requires
        config.valid(),
        image_count >= 0,
        is_partition(windows, image_count, pairwise, config, scores),
    ensures
        windows.len() == 0 <==> image_count == 0,
        windows.len() == 1 <==> 0 < image_count <= config.max_images,
        image_count > 0 ==> windows.last().outgoing_seam_support == 0,
{
    if windows.len() > 1 {
        assert(window_is_cut(windows, 0, image_count, pairwise, config, scores));
    }
}

/// What supports a seam: a pair adds its matches to the cuts that part its two images, and
/// to no other. A window's outgoing support is that of the cut where it ends.
pub proof fn seams_are_supported_by_the_pairs_they_part(
    pairwise: Seq<PairwiseMatches>,
    pair: PairwiseMatches,
    cut: int,
)
    ensures
        seam_support(Seq::empty(), cut) == 0,
        seam_support(pairwise.push(pair), cut) == seam_support(pairwise, cut) + if (pair.image_i
            < cut) != (pair.image_j < cut) {
            pair.matches@.len() as int
        } else {
            0
        },
        total_matches(pairwise.push(pair)) == total_matches(pairwise) + pair.matches@.len(),
{
    assert(pairwise.push(pair).drop_last() =~= pairwise);
}

/// What a window of a partition reports: the support of the seam at its end.
pub proof fn windows_report_their_seam(
    windows: Seq<SubmapWindow>,
    image_count: int,
    pairwise: Seq<PairwiseMatches>,
    config: AdaptiveSubmapPartitionConfig,
    scores: Seq<Scalar>,
    k: int,
)
    requires
        image_count > 0,
        is_partition(windows, image_count, pairwise, config, scores),
        0 <= k < windows.len(),
    ensures
        windows[k].outgoing_seam_support == if k < windows.len() - 1 {
            seam_support(pairwise, windows[k].image_range.end as int)
        } else {
            0
        },
{
    if k < windows.len() - 1 {
        assert(window_is_cut(windows, k, image_count, pairwise, config, scores));
    }
}

/// A finite hint that is not negative is the quality of its cut; any other cut has quality
/// one. Hints beyond the cuts are of no account.
pub proof fn usable_hints_are_taken_as_they_are(hints: AdaptiveSubmapPartitionHints, cut: int)
    ensures
        ({
            let list = hints.boundary_quality_by_cut@;
            let usable = 0 <= cut < list.len() && list[cut].is_finite() && !list[cut].lt(
                Scalar::zero(),
            );
            &&& usable ==> hints.quality(cut) == list[cut]
            &&& !usable ==> hints.quality(cut) == Scalar::one()
        }),
{
}

/// What makes a configuration valid.
pub proof fn valid_sizes_are_ordered(config: AdaptiveSubmapPartitionConfig)
    ensures
        config.valid() <==> {
            &&& config.min_images >= 1
            &&& config.target_images >= config.min_images
            &&& config.max_images >= config.target_images
            &&& config.min_images > config.overlap_images
        },
{
}

/// An input error names what is wrong: the sizes, in order of importance, or the first pair
/// that refers to an image that is not there.
pub proof fn input_errors_name_the_first_bad_pair(
    pairwise: Seq<PairwiseMatches>,
    image_count: int,
    config: AdaptiveSubmapPartitionConfig,
    error: SubmapPartitionError,
)
    requires
        is_input_error(pairwise, image_count, config, error),
    ensures
        error is ZeroMinimum <==> config.min_images == 0,
        error is InvalidSizeOrder <==> config.min_images > 0 && (config.min_images
            > config.target_images || config.target_images > config.max_images),
        error is OverlapTooLarge <==> 0 < config.min_images <= config.target_images
            <= config.max_images && config.overlap_images >= config.min_images,
        error matches SubmapPartitionError::PairImageOutOfRange {
            pair_index,
            image_index,
            image_count: count,
        } ==> {
            &&& count == image_count
            &&& pair_index < pairwise.len()
            &&& image_index >= image_count
            &&& image_index == pairwise[pair_index as int].image_i || (image_index
                == pairwise[pair_index as int].image_j && pairwise[pair_index as int].image_i
                < image_count)
            &&& forall|k: int|
                0 <= k < pair_index ==> (#[trigger] pairwise[k]).image_i < image_count
                    && pairwise[k].image_j < image_count
        },
{
    if let SubmapPartitionError::PairImageOutOfRange { pair_index, image_index, image_count: count }
        = error {
        let earlier = pairwise.take(pair_index as int);
        assert forall|k: int| 0 <= k < pair_index implies (#[trigger] pairwise[k]).image_i
            < image_count && pairwise[k].image_j < image_count by {
            assert(earlier[k] == pairwise[k]);
        }
    }
}

/// The pairs of a submap are those both of whose images lie in its range, in order, with
/// the images counted from its start and the matches as they were.
pub proof fn submaps_keep_their_pairs(pairwise: Seq<PairwiseMatches>, range: Range<usize>) -> (at:
    Seq<int>)
    ensures
        lists_kept(
            at,
            pairwise.len(),
            |k: int|
                range.start <= pairwise[k].image_i < range.end && range.start <= pairwise[k].image_j
                    < range.end,
        ),
        internal_pairs(pairwise, range).len() == at.len(),
        forall|k: int|
            0 <= k < at.len() ==> ({
                let found = internal_pairs(pairwise, range)[k];
                let pair = pairwise[#[trigger] at[k]];
                &&& found.0 + range.start == pair.image_i
                &&& found.1 + range.start == pair.image_j
                &&& found.2 == pair.matches@
            }),
    decreases pairwise.len(),
{
    let kept = |k: int|
        range.start <= pairwise[k].image_i < range.end && range.start <= pairwise[k].image_j
            < range.end;
    if pairwise.len() == 0 {
        Seq::empty()
    } else {
        let rest = pairwise.drop_last();
        let n = rest.len() as int;
        let before = submaps_keep_their_pairs(rest, range);
        let kept_before = |k: int|
            range.start <= rest[k].image_i < range.end && range.start <= rest[k].image_j
                < range.end;
        assert forall|k: int| 0 <= k < n implies #[trigger] kept(k) == kept_before(k) by {}
        assert(lists_kept(before, rest.len(), kept));
        crate::sequences::lemma_lists_one_more(before, rest.len(), kept);
        assert forall|k: int| 0 <= k < before.len() implies rest[#[trigger] before[k]]
            == pairwise[before[k]] by {}
        if kept(n) {
            let at = before.push(n);
            assert(at.last() == n);
            at
        } else {
            before
        }
    }
}

} // verus!
