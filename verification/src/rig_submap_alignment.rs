//! Bounded camera-centre alignment between independently gauged rig submaps.
//!
//! A rig frame appears once in each local submap with its pose. The common rig
//! frames' camera centres become the point matches of a similarity estimate, and the
//! two attitudes of each frame give an independent rotation, which a bounded medoid
//! consensus turns into the rotation that the estimate is checked against.
//!
//! All quadratic work is over the retained boundary only. Common frame ids are sorted
//! in ascending order and, by default, the earliest `max_boundary_frames` are
//! retained; a uniform sampler can cover the whole common span instead. The optional
//! fixed-rotation and generic fallback paths are opt-in.
use crate::geometry::{Point3, Pose, Quaternion};
use crate::order::{stable_order, stable_order_of, SortKey};
use crate::sampling::{draw_pairs, generator_repeats};
use crate::scalar::{largest, Scalar};
use crate::sequences::{
    contains_id, count_where, indices_where, lemma_filter_positions, lemma_filter_take,
    lemma_increasing_is_unique, lemma_indices_where, lemma_sorted_set_of, lemma_take_all,
    sorted_set, sorted_set_of, strictly_increasing,
};
use crate::submap_alignment::{
    align_with_samples, alignments_repeat, constraints_alike, estimate_submap_sim3_constraint,
    holds_what_is_given, is_alignment, is_random_alignment, random_alignments_repeat,
    results_alike, tasks_alike, AlignmentKind, AlignmentNumerics, AlignmentTask, FitQuality,
    SceneGeometry, Sim3Fit, SubmapPointMatch, SubmapSim3AlignmentConfig, SubmapSim3Constraint,
    SubmapSim3Rejection,
};
use crate::text::{decimal, decimal_text};
use vstd::prelude::*;

verus! {

/// Deterministic policy for selecting the bounded common-frame seam.
#[derive(Clone, Copy, Debug, PartialEq, Eq, Structural)]
pub enum RigSubmapBoundarySampling {
    /// Retain the lowest sorted frame ids.
    Earliest,
    /// Retain evenly spaced ids across the full overlap, both ends among them.
    UniformAcrossOverlap,
}

/// Configuration for the bounded rig-frame seam adapter.
#[derive(Clone, Copy, Debug, PartialEq, Eq, Structural)]
pub struct RigSubmapAlignmentConfig {
    /// Maximum number of common rig frames retained for the seam.
    pub max_boundary_frames: usize,
    /// Policy used to select the bounded common-frame seam boundary.
    pub boundary_sampling: RigSubmapBoundarySampling,
    /// Angular radius of the independent rotation consensus.
    pub rotation_consensus_deg: Scalar,
    /// Minimum fraction of retained rotations in that consensus.
    pub min_rotation_consensus_ratio: Scalar,
    /// Robust alignment and residual gates.
    pub alignment: SubmapSim3AlignmentConfig,
    /// Allow the fixed-rotation estimator after the generic one rejects.
    pub allow_fixed_rotation_fallback: bool,
    /// Use the fixed-rotation estimator as the primary one.
    pub prefer_fixed_rotation_alignment: bool,
    /// With the fixed-rotation estimator as the primary one, allow the generic one
    /// after it rejects.
    pub allow_generic_fallback_after_fixed_rotation: bool,
    /// In the fixed-rotation paths, force unit scale.
    pub force_fixed_rotation_unit_scale: bool,
}

impl Default for RigSubmapAlignmentConfig {
    /// A consensus radius of 5 degrees and a consensus ratio of 0.6.
    fn default() -> (config: Self)
        ensures
            config.max_boundary_frames == 64,
            config.boundary_sampling == RigSubmapBoundarySampling::Earliest,
            config.rotation_consensus_deg == (Scalar { bits: 0x4014_0000_0000_0000 }),
            config.min_rotation_consensus_ratio == (Scalar { bits: 0x3FE3_3333_3333_3333 }),
            call_ensures(SubmapSim3AlignmentConfig::default, (), config.alignment),
            !config.allow_fixed_rotation_fallback,
            !config.prefer_fixed_rotation_alignment,
            !config.allow_generic_fallback_after_fixed_rotation,
            !config.force_fixed_rotation_unit_scale,
    {
        RigSubmapAlignmentConfig {
            max_boundary_frames: 64,
            boundary_sampling: RigSubmapBoundarySampling::Earliest,
            rotation_consensus_deg: Scalar { bits: 0x4014_0000_0000_0000 },
            min_rotation_consensus_ratio: Scalar { bits: 0x3FE3_3333_3333_3333 },
            alignment: SubmapSim3AlignmentConfig::default(),
            allow_fixed_rotation_fallback: false,
            prefer_fixed_rotation_alignment: false,
            allow_generic_fallback_after_fixed_rotation: false,
            force_fixed_rotation_unit_scale: false,
        }
    }
}

impl RigSubmapAlignmentConfig {
    /// The boundary is not empty, the radius lies in (0, 180] degrees, and the ratio
    /// in (0, 1].
    pub open spec fn valid(self) -> bool {
        &&& self.max_boundary_frames > 0
        &&& self.rotation_consensus_deg.is_finite()
        &&& Scalar::zero().lt(self.rotation_consensus_deg)
        &&& self.rotation_consensus_deg.le(Scalar { bits: HALF_TURN_BITS })
        &&& self.min_rotation_consensus_ratio.is_finite()
        &&& Scalar::zero().lt(self.min_rotation_consensus_ratio)
        &&& self.min_rotation_consensus_ratio.le(Scalar::one())
    }

    fn is_valid(&self) -> (b: bool)
        ensures
            b == self.valid(),
    {
        self.max_boundary_frames > 0 && self.rotation_consensus_deg.is_finite()
            && Scalar::zero().lt(self.rotation_consensus_deg) && self.rotation_consensus_deg.le(
            Scalar { bits: HALF_TURN_BITS },
        ) && self.min_rotation_consensus_ratio.is_finite() && Scalar::zero().lt(
            self.min_rotation_consensus_ratio,
        ) && self.min_rotation_consensus_ratio.le(Scalar::one())
    }
}

/// The bit pattern of 180 degrees.
pub const HALF_TURN_BITS: u64 = 0x4066_8000_0000_0000;

/// Estimator path that produced or rejected a rig-submap alignment.
#[derive(Clone, Copy, Debug, PartialEq, Eq, Structural)]
pub enum RigSubmapAlignmentMethod {
    /// The generic similarity estimator.
    Generic,
    /// The fixed-rotation estimator as the primary one.
    FixedRotationPrimary,
    /// The fixed-rotation estimator after the generic one rejected.
    FixedRotationFallback,
    /// The generic estimator after the fixed-rotation one rejected.
    GenericFallback,
}

impl RigSubmapAlignmentMethod {
    /// The stable name of the method.
    pub fn as_str(self) -> (name: &'static str)
        ensures
            name@ == (match self {
                RigSubmapAlignmentMethod::Generic => "generic"@,
                RigSubmapAlignmentMethod::FixedRotationPrimary => "fixed-primary"@,
                RigSubmapAlignmentMethod::FixedRotationFallback => "fixed-fallback"@,
                RigSubmapAlignmentMethod::GenericFallback => "generic-fallback"@,
            }),
    {
        match self {
            RigSubmapAlignmentMethod::Generic => "generic",
            RigSubmapAlignmentMethod::FixedRotationPrimary => "fixed-primary",
            RigSubmapAlignmentMethod::FixedRotationFallback => "fixed-fallback",
            RigSubmapAlignmentMethod::GenericFallback => "generic-fallback",
        }
    }
}

/// Why a rig-submap camera-centre seam was not admitted.
#[derive(Clone, Copy, Debug, PartialEq, Eq, Structural)]
pub enum RigSubmapAlignmentRejectionReason {
    /// The seam or consensus settings are outside their domains.
    InvalidConfiguration,
    /// A trajectory contains the same frame id more than once.
    DuplicateFrameId,
    /// A pose is not finite.
    NonFinitePose,
    /// A finite pose produced a camera centre that is not finite.
    NonFiniteCameraCenter,
    /// The retained common boundary is smaller than the minimum.
    InsufficientCommonFrames,
    /// The independent rotations do not form a large enough consensus.
    LowRotationConsensus,
    /// The robust estimators rejected the camera-centre matches.
    Sim3Rejected,
}

/// Side of an input that supplied a malformed record.
#[derive(Clone, Copy, Debug, PartialEq, Eq, Structural)]
pub enum RigSubmapInputSide {
    Source,
    Target,
}

/// A rig frame of one submap: its id, its pose, and its camera centre.
#[derive(Clone, Copy, Debug, PartialEq, Eq, Structural)]
pub struct RigFrame {
    pub frame_id: u64,
    pub pose: Pose,
    pub camera_center: Point3,
}

/// Counts from a rig-submap alignment attempt, filled in on success and on rejection.
#[derive(Clone, Debug, PartialEq, Eq)]
pub struct RigSubmapAlignmentDiagnostics {
    pub source_frame_count: usize,
    pub target_frame_count: usize,
    pub source_unique_frame_count: usize,
    pub target_unique_frame_count: usize,
    pub common_frame_count: usize,
    pub retained_frame_count: usize,
    pub retained_frame_ids: Vec<u64>,
    pub rotation_candidate_count: usize,
    pub rotation_consensus_count: usize,
    pub rotation_consensus_ratio: Scalar,
    pub rotation_consensus_max_disagreement_deg: Scalar,
    pub rotation_consensus_threshold_deg: Scalar,
    pub rotation_medoid_frame_id: Option<u64>,
    pub camera_centre_match_count: usize,
    /// Which estimator path was selected or produced the rejection.
    pub alignment_method: Option<RigSubmapAlignmentMethod>,
    pub sim3_inlier_count: Option<usize>,
    pub sim3_inlier_ratio: Option<Scalar>,
    /// The rejection of the generic estimator as the primary one.
    pub generic_sim3_rejection: Option<SubmapSim3Rejection>,
    /// The rejection of the fixed-rotation estimator as the primary one.
    pub fixed_rotation_rejection: Option<SubmapSim3Rejection>,
    /// The rejection of the generic estimator as the secondary one.
    pub generic_fallback_rejection: Option<SubmapSim3Rejection>,
    /// Whether a secondary estimator was attempted.
    pub fallback_attempted: bool,
    /// Whether that secondary estimator supplied the constraint.
    pub fallback_used: bool,
    /// The rejection of the fixed-rotation estimator as the secondary one.
    pub fallback_rejection: Option<SubmapSim3Rejection>,
}

/// The diagnostics with the retained ids as a sequence.
#[verifier::ext_equal]
pub struct RigDiagnosticsModel {
    pub source_frame_count: int,
    pub target_frame_count: int,
    pub source_unique_frame_count: int,
    pub target_unique_frame_count: int,
    pub common_frame_count: int,
    pub retained_frame_count: int,
    pub retained_frame_ids: Seq<u64>,
    pub rotation_candidate_count: int,
    pub rotation_consensus_count: int,
    pub rotation_consensus_ratio: Scalar,
    pub rotation_consensus_max_disagreement_deg: Scalar,
    pub rotation_consensus_threshold_deg: Scalar,
    pub rotation_medoid_frame_id: Option<u64>,
    pub camera_centre_match_count: int,
    pub alignment_method: Option<RigSubmapAlignmentMethod>,
    pub sim3_inlier_count: Option<usize>,
    pub sim3_inlier_ratio: Option<Scalar>,
    pub generic_sim3_rejection: Option<SubmapSim3Rejection>,
    pub fixed_rotation_rejection: Option<SubmapSim3Rejection>,
    pub generic_fallback_rejection: Option<SubmapSim3Rejection>,
    pub fallback_attempted: bool,
    pub fallback_used: bool,
    pub fallback_rejection: Option<SubmapSim3Rejection>,
}

impl View for RigSubmapAlignmentDiagnostics {
    type V = RigDiagnosticsModel;

    open spec fn view(&self) -> RigDiagnosticsModel {
        RigDiagnosticsModel {
            source_frame_count: self.source_frame_count as int,
            target_frame_count: self.target_frame_count as int,
            source_unique_frame_count: self.source_unique_frame_count as int,
            target_unique_frame_count: self.target_unique_frame_count as int,
            common_frame_count: self.common_frame_count as int,
            retained_frame_count: self.retained_frame_count as int,
            retained_frame_ids: self.retained_frame_ids@,
            rotation_candidate_count: self.rotation_candidate_count as int,
            rotation_consensus_count: self.rotation_consensus_count as int,
            rotation_consensus_ratio: self.rotation_consensus_ratio,
            rotation_consensus_max_disagreement_deg: self.rotation_consensus_max_disagreement_deg,
            rotation_consensus_threshold_deg: self.rotation_consensus_threshold_deg,
            rotation_medoid_frame_id: self.rotation_medoid_frame_id,
            camera_centre_match_count: self.camera_centre_match_count as int,
            alignment_method: self.alignment_method,
            sim3_inlier_count: self.sim3_inlier_count,
            sim3_inlier_ratio: self.sim3_inlier_ratio,
            generic_sim3_rejection: self.generic_sim3_rejection,
            fixed_rotation_rejection: self.fixed_rotation_rejection,
            generic_fallback_rejection: self.generic_fallback_rejection,
            fallback_attempted: self.fallback_attempted,
            fallback_used: self.fallback_used,
            fallback_rejection: self.fallback_rejection,
        }
    }
}

/// The diagnostics of an attempt that has only counted frames.
pub open spec fn counts_only(
    source: int,
    target: int,
    source_unique: int,
    target_unique: int,
    common: int,
    retained: Seq<u64>,
    threshold_deg: Scalar,
) -> RigDiagnosticsModel {
    RigDiagnosticsModel {
        source_frame_count: source,
        target_frame_count: target,
        source_unique_frame_count: source_unique,
        target_unique_frame_count: target_unique,
        common_frame_count: common,
        retained_frame_count: retained.len() as int,
        retained_frame_ids: retained,
        rotation_candidate_count: 0,
        rotation_consensus_count: 0,
        rotation_consensus_ratio: Scalar::zero(),
        rotation_consensus_max_disagreement_deg: Scalar::zero(),
        rotation_consensus_threshold_deg: threshold_deg,
        rotation_medoid_frame_id: None,
        camera_centre_match_count: 0,
        alignment_method: None,
        sim3_inlier_count: None,
        sim3_inlier_ratio: None,
        generic_sim3_rejection: None,
        fixed_rotation_rejection: None,
        generic_fallback_rejection: None,
        fallback_attempted: false,
        fallback_used: false,
        fallback_rejection: None,
    }
}

impl RigSubmapAlignmentDiagnostics {
    /// The diagnostics of an attempt that has only counted frames.
    pub fn from_counts(
        source_frame_count: usize,
        target_frame_count: usize,
        source_unique_frame_count: usize,
        target_unique_frame_count: usize,
        common_frame_count: usize,
        retained_frame_ids: Vec<u64>,
        rotation_consensus_threshold_deg: Scalar,
    ) -> (diagnostics: Self)
        ensures
            diagnostics@ == counts_only(
                source_frame_count as int,
                target_frame_count as int,
                source_unique_frame_count as int,
                target_unique_frame_count as int,
                common_frame_count as int,
                retained_frame_ids@,
                rotation_consensus_threshold_deg,
            ),
    {
        RigSubmapAlignmentDiagnostics {
            source_frame_count,
            target_frame_count,
            source_unique_frame_count,
            target_unique_frame_count,
            common_frame_count,
            retained_frame_count: retained_frame_ids.len(),
            retained_frame_ids,
            rotation_candidate_count: 0,
            rotation_consensus_count: 0,
            rotation_consensus_ratio: Scalar::zero(),
            rotation_consensus_max_disagreement_deg: Scalar::zero(),
            rotation_consensus_threshold_deg,
            rotation_medoid_frame_id: None,
            camera_centre_match_count: 0,
            alignment_method: None,
            sim3_inlier_count: None,
            sim3_inlier_ratio: None,
            generic_sim3_rejection: None,
            fixed_rotation_rejection: None,
            generic_fallback_rejection: None,
            fallback_attempted: false,
            fallback_used: false,
            fallback_rejection: None,
        }
    }
}

/// A rejection with the diagnostics up to it.
#[derive(Clone, Debug, PartialEq, Eq)]
pub struct RigSubmapAlignmentRejection {
    pub reason: RigSubmapAlignmentRejectionReason,
    pub diagnostics: RigSubmapAlignmentDiagnostics,
    pub offending_side: Option<RigSubmapInputSide>,
    pub offending_frame_id: Option<u64>,
    /// Rejection of the primary estimator.
    pub sim3_rejection: Option<SubmapSim3Rejection>,
    /// Rejection of the secondary estimator.
    pub fallback_rejection: Option<SubmapSim3Rejection>,
}

/// The same, under the conventional name.
pub type RigSubmapAlignmentError = RigSubmapAlignmentRejection;

impl RigSubmapAlignmentRejection {
    /// A description for people; `ratio` is the consensus ratio as text.
    pub fn message(&self, ratio: &str) -> (text: String)
        ensures
            text@ == (match self.reason {
                RigSubmapAlignmentRejectionReason::InvalidConfiguration =>
                    "rig-submap alignment has an invalid boundary or rotation-consensus configuration"@,
                RigSubmapAlignmentRejectionReason::DuplicateFrameId =>
                    "rig-submap seam contains a duplicate frame id"@,
                RigSubmapAlignmentRejectionReason::NonFinitePose =>
                    "rig-submap seam contains a non-finite pose"@,
                RigSubmapAlignmentRejectionReason::NonFiniteCameraCenter =>
                    "rig-submap seam contains a non-finite camera centre"@,
                RigSubmapAlignmentRejectionReason::InsufficientCommonFrames => "rig-submap seam has "@
                    + decimal(self.diagnostics.retained_frame_count as nat)
                    + " retained common frames"@,
                RigSubmapAlignmentRejectionReason::LowRotationConsensus =>
                    "rig-submap rotation consensus ratio "@ + ratio@
                    + " is below the configured minimum"@,
                RigSubmapAlignmentRejectionReason::Sim3Rejected =>
                    "rig-submap Sim(3) alignment was rejected"@,
            }),
    {
        match self.reason {
            RigSubmapAlignmentRejectionReason::InvalidConfiguration =>
                "rig-submap alignment has an invalid boundary or rotation-consensus configuration".to_owned(),
            RigSubmapAlignmentRejectionReason::DuplicateFrameId =>
                "rig-submap seam contains a duplicate frame id".to_owned(),
            RigSubmapAlignmentRejectionReason::NonFinitePose =>
                "rig-submap seam contains a non-finite pose".to_owned(),
            RigSubmapAlignmentRejectionReason::NonFiniteCameraCenter =>
                "rig-submap seam contains a non-finite camera centre".to_owned(),
            RigSubmapAlignmentRejectionReason::InsufficientCommonFrames => String::from_str(
                "rig-submap seam has ",
            ).concat(decimal_text(self.diagnostics.retained_frame_count as u128).as_str()).concat(
                " retained common frames",
            ),
            RigSubmapAlignmentRejectionReason::LowRotationConsensus => String::from_str(
                "rig-submap rotation consensus ratio ",
            ).concat(ratio).concat(" is below the configured minimum"),
            RigSubmapAlignmentRejectionReason::Sim3Rejected =>
                "rig-submap Sim(3) alignment was rejected".to_owned(),
        }
    }
}

/// A verified camera-centre seam constraint with the evidence that admitted it.
#[derive(Clone, Debug, PartialEq, Eq)]
pub struct RigSubmapAlignmentResult {
    pub constraint: SubmapSim3Constraint,
    pub diagnostics: RigSubmapAlignmentDiagnostics,
}

/// At most `maximum` of the common ids, by policy. The uniform policy takes the id at
/// position `i * (n - 1) / (maximum - 1)` for each sample `i`.
pub open spec fn sampled(
    common: Seq<u64>,
    maximum: int,
    sampling: RigSubmapBoundarySampling,
) -> Seq<u64> {
    if common.len() <= maximum {
        common
    } else if maximum <= 0 {
        Seq::empty()
    } else if sampling is Earliest {
        common.take(maximum)
    } else if maximum == 1 {
        seq![common[0]]
    } else {
        Seq::new(maximum as nat, |i: int| common[i * (common.len() - 1) / (maximum - 1)])
    }
}

proof fn lemma_position(i: int, span: int, intervals: int)
    requires
        0 <= i <= intervals,
        0 < intervals <= span,
    ensures
        0 <= i * span / intervals <= span,
        i < intervals ==> i * span / intervals < (i + 1) * span / intervals,
        0 * span / intervals == 0,
        intervals * span / intervals == span,
{
    assert(0 <= i * span <= intervals * span) by (nonlinear_arith)
        requires
            0 <= i <= intervals,
            0 < intervals <= span,
    ;
    vstd::arithmetic::div_mod::lemma_div_is_ordered(0, i * span, intervals);
    vstd::arithmetic::div_mod::lemma_div_is_ordered(i * span, intervals * span, intervals);
    vstd::arithmetic::div_mod::lemma_div_multiples_vanish(span, intervals);
    assert(intervals * span == span * intervals) by (nonlinear_arith);
    assert(0 * span == 0) by (nonlinear_arith);
    if i < intervals {
        assert(i * span + intervals <= (i + 1) * span) by (nonlinear_arith)
            requires
                intervals <= span,
        ;
        vstd::arithmetic::div_mod::lemma_div_is_ordered(
            i * span + intervals,
            (i + 1) * span,
            intervals,
        );
        vstd::arithmetic::div_mod::lemma_div_plus_one(i * span, intervals);
    }
}

proof fn lemma_positions_increase(i: int, j: int, span: int, intervals: int)
    requires
        0 <= i < j <= intervals,
        0 < intervals <= span,
    ensures
        i * span / intervals < j * span / intervals,
    decreases j - i,
{
    lemma_position(i, span, intervals);
    if i + 1 < j {
        lemma_positions_increase(i + 1, j, span, intervals);
    }
}

/// Selects at most `max_boundary_frames` from a sorted overlap.
pub fn sample_boundary_frame_ids(
    common_frame_ids: &[u64],
    max_boundary_frames: usize,
    sampling: RigSubmapBoundarySampling,
) -> (retained: Vec<u64>)
    ensures
        retained@ == sampled(common_frame_ids@, max_boundary_frames as int, sampling),
{
    let mut retained: Vec<u64> = Vec::new();
    let count: usize = if common_frame_ids.len() <= max_boundary_frames {
        common_frame_ids.len()
    } else {
        max_boundary_frames
    };
    let all: bool = common_frame_ids.len() <= max_boundary_frames;
    let uniform: bool = !all && sampling == RigSubmapBoundarySampling::UniformAcrossOverlap
        && max_boundary_frames > 1;
    let mut i: usize = 0;
    while i < count
        invariant
            i <= count <= common_frame_ids.len(),
            all == (common_frame_ids.len() <= max_boundary_frames),
            !all ==> count == max_boundary_frames,
            all ==> count == common_frame_ids.len(),
            uniform == (!all && sampling is UniformAcrossOverlap && max_boundary_frames > 1),
            retained.len() == i,
            forall|j: int|
                0 <= j < i ==> #[trigger] retained[j] == sampled(
                    common_frame_ids@,
                    max_boundary_frames as int,
                    sampling,
                )[j],
        decreases count - i,
    {
        if uniform {
            let span: u128 = (common_frame_ids.len() - 1) as u128;
            let intervals: u128 = (max_boundary_frames - 1) as u128;
            proof {
                lemma_position(i as int, span as int, intervals as int);
                assert(i * span <= u64::MAX * u64::MAX) by (nonlinear_arith)
                    requires
                        i <= u64::MAX,
                        span <= u64::MAX,
                ;
                assert(u64::MAX * u64::MAX <= u128::MAX) by (nonlinear_arith);
            }
            let position: usize = (i as u128 * span / intervals) as usize;
            retained.push(common_frame_ids[position]);
        } else {
            retained.push(common_frame_ids[i]);
        }
        i += 1;
    }
    assert(retained@ =~= sampled(common_frame_ids@, max_boundary_frames as int, sampling));
    retained
}

/// The seam is bounded and, out of distinct sorted ids, distinct and sorted. The
/// uniform policy keeps both ends of the overlap.
pub proof fn boundary_sampling_is_bounded_and_distinct(
    common: Seq<u64>,
    maximum: int,
    sampling: RigSubmapBoundarySampling,
)
    requires
        strictly_increasing(common),
        maximum >= 0,
    ensures
        sampled(common, maximum, sampling).len() <= maximum,
        strictly_increasing(sampled(common, maximum, sampling)),
        forall|id: u64| sampled(common, maximum, sampling).contains(id) ==> common.contains(id),
        sampling is UniformAcrossOverlap && 2 <= maximum && common.len() > 0 ==> sampled(
            common,
            maximum,
            sampling,
        )[0] == common[0] && sampled(common, maximum, sampling).last() == common.last(),
{
    let out = sampled(common, maximum, sampling);
    if sampling is UniformAcrossOverlap && 2 <= maximum < common.len() {
        let span = common.len() - 1;
        let intervals = maximum - 1;
        assert forall|i: int, j: int| 0 <= i < j < out.len() implies out[i] < out[j] by {
            lemma_position(i, span, intervals);
            lemma_position(j, span, intervals);
            lemma_positions_increase(i, j, span, intervals);
        }
        assert forall|id: u64| out.contains(id) implies common.contains(id) by {
            let i = out.index_of(id);
            lemma_position(i, span, intervals);
            assert(common[i * span / intervals] == id);
        }
        lemma_position(0, span, intervals);
        lemma_position(intervals, span, intervals);
    } else {
        assert forall|id: u64| out.contains(id) implies common.contains(id) by {
            let i = out.index_of(id);
            assert(common[i] == id);
        }
    }
}

/// The independent rotations of the retained frames, and how far they lie apart.
#[derive(Clone, Debug, PartialEq, Eq)]
pub struct RotationGeometry {
    /// Rotation from source to target, frame by frame.
    pub rotations: Vec<Quaternion>,
    /// Angles between the rotations of any two frames, in radians.
    pub distances: Vec<Vec<Scalar>>,
    /// Radius of the consensus, in radians.
    pub radius: Scalar,
}

impl RotationGeometry {
    /// There is a rotation for each of `n` frames, and a distance for each two.
    pub open spec fn covers(self, n: nat) -> bool {
        &&& self.rotations.len() == n
        &&& self.distances.len() == n
        &&& forall|i: int| 0 <= i < n ==> (#[trigger] self.distances[i]).len() == n
    }
}

/// The arithmetic that the seam adapter rests on.
pub struct RigNumerics<G, U, D, S, F, M, R, Q> {
    /// The rotations of paired source and target frames, given the consensus radius in
    /// degrees.
    pub rotations: G,
    /// The sum of a list of numbers.
    pub sum: U,
    /// Radians in degrees.
    pub degrees: D,
    /// What the estimators need.
    pub alignment: AlignmentNumerics<S, F, M, R, Q>,
}

impl<G, U, D, S, F, M, R, Q> RigNumerics<G, U, D, S, F, M, R, Q> where
    G: Fn(&Vec<RigFrame>, &Vec<RigFrame>, Scalar) -> RotationGeometry,
    U: Fn(&Vec<Scalar>) -> Scalar,
    D: Fn(Scalar) -> Scalar,
    S: Fn(&AlignmentTask) -> SceneGeometry,
    F: Fn(&AlignmentTask, &Vec<usize>) -> Option<Sim3Fit>,
    M: Fn(&Vec<Scalar>) -> Scalar,
    R: Fn(usize, usize) -> Scalar,
    Q: Fn(&AlignmentTask, &Sim3Fit, &Vec<usize>, Scalar) -> FitQuality,
{
    /// The functions take any argument, and the rotations cover the frames they are
    /// asked for.
    pub open spec fn callable(self) -> bool {
        &&& self.alignment.callable()
        &&& forall|source: Vec<RigFrame>, target: Vec<RigFrame>, radius: Scalar|
            call_requires(self.rotations, (&source, &target, radius))
        &&& forall|values: Vec<Scalar>| call_requires(self.sum, (&values,))
        &&& forall|angle: Scalar| call_requires(self.degrees, (angle,))
        &&& forall|
            source: Vec<RigFrame>,
            target: Vec<RigFrame>,
            radius: Scalar,
            geometry: RotationGeometry,
        | #[trigger]
            call_ensures(self.rotations, (&source, &target, radius), geometry)
                ==> geometry.covers(source.len() as nat)
    }

    /// `sum` is the sum of these numbers.
    pub open spec fn sums(self, values: Seq<Scalar>, sum: Scalar) -> bool {
        exists|list: Vec<Scalar>| list@ == values && #[trigger] call_ensures(self.sum, (&list,), sum)
    }
}

/// Selects the frames whose rotation lies within the radius.
pub open spec fn is_close(distances: Seq<Scalar>, radius: Scalar) -> spec_fn(int) -> bool {
    |j: int| distances[j].le(radius)
}

/// The frames whose rotation lies within the radius of that of frame `i`.
pub open spec fn cluster_of(geometry: RotationGeometry, i: int) -> Seq<usize> {
    indices_where(
        geometry.rotations.len() as nat,
        is_close(geometry.distances[i]@, geometry.radius),
    )
}

/// The distances of frame `i` from the frames of its cluster.
pub open spec fn cluster_distances(geometry: RotationGeometry, i: int) -> Seq<Scalar> {
    cluster_of(geometry, i).map_values(|j: usize| geometry.distances[i][j as int])
}

/// The best cluster centre so far.
pub struct Medoid {
    pub index: int,
    pub support: nat,
    pub sum: Scalar,
}

/// Frame `i` is the better centre: a larger cluster, on equal sizes a smaller sum of
/// distances, and on equal sums a lower frame id.
pub open spec fn better_medoid(
    geometry: RotationGeometry,
    frame_ids: Seq<u64>,
    sums: Seq<Scalar>,
    i: int,
    best: Medoid,
) -> bool {
    let support = cluster_of(geometry, i).len();
    ||| support > best.support
    ||| support == best.support && (sums[i].lt(best.sum) || (sums[i].le(best.sum) && best.sum.le(
        sums[i],
    ) && frame_ids[i] < frame_ids[best.index]))
}

/// The best centre among the first `n` frames.
pub open spec fn best_medoid(
    geometry: RotationGeometry,
    frame_ids: Seq<u64>,
    sums: Seq<Scalar>,
    n: nat,
) -> Medoid
    decreases n,
{
    if n == 0 {
        Medoid { index: 0, support: 0, sum: Scalar::infinity() }
    } else {
        let best = best_medoid(geometry, frame_ids, sums, (n - 1) as nat);
        if better_medoid(geometry, frame_ids, sums, n - 1, best) {
            Medoid {
                index: n - 1,
                support: cluster_of(geometry, n - 1).len(),
                sum: sums[n - 1],
            }
        } else {
            best
        }
    }
}

/// The largest angular cluster and its centre.
#[derive(Clone, Debug, PartialEq, Eq)]
pub struct RotationConsensus {
    pub rotation: Quaternion,
    pub medoid_frame_id: u64,
    pub indices: Vec<usize>,
    pub max_disagreement_deg: Scalar,
}

/// The frames of the consensus around a centre: its cluster, or itself alone where that
/// is empty.
pub open spec fn consensus_indices(geometry: RotationGeometry, best: Medoid) -> Seq<usize> {
    if best.support == 0 {
        seq![best.index as usize]
    } else {
        cluster_of(geometry, best.index)
    }
}

/// `consensus` is that of the rotations.
pub open spec fn is_consensus<G, U, D, S, F, M, R, Q>(
    consensus: RotationConsensus,
    geometry: RotationGeometry,
    frame_ids: Seq<u64>,
    sums: Seq<Scalar>,
    numerics: RigNumerics<G, U, D, S, F, M, R, Q>,
) -> bool where
    G: Fn(&Vec<RigFrame>, &Vec<RigFrame>, Scalar) -> RotationGeometry,
    U: Fn(&Vec<Scalar>) -> Scalar,
    D: Fn(Scalar) -> Scalar,
    S: Fn(&AlignmentTask) -> SceneGeometry,
    F: Fn(&AlignmentTask, &Vec<usize>) -> Option<Sim3Fit>,
    M: Fn(&Vec<Scalar>) -> Scalar,
    R: Fn(usize, usize) -> Scalar,
    Q: Fn(&AlignmentTask, &Sim3Fit, &Vec<usize>, Scalar) -> FitQuality,
{
    let best = best_medoid(geometry, frame_ids, sums, frame_ids.len());
    let indices = consensus_indices(geometry, best);
    let spread = largest(
        indices.map_values(|j: usize| geometry.distances[best.index][j as int]),
    );
    &&& sums.len() == frame_ids.len()
    &&& forall|i: int|
        0 <= i < sums.len() ==> numerics.sums(cluster_distances(geometry, i), #[trigger] sums[i])
    &&& consensus.rotation == geometry.rotations[best.index]
    &&& consensus.medoid_frame_id == frame_ids[best.index]
    &&& consensus.indices@ == indices
    &&& call_ensures(numerics.degrees, (spread,), consensus.max_disagreement_deg)
}

proof fn lemma_best_medoid(
    geometry: RotationGeometry,
    frame_ids: Seq<u64>,
    sums: Seq<Scalar>,
    n: nat,
)
    ensures
        n > 0 ==> 0 <= best_medoid(geometry, frame_ids, sums, n).index < n,
        best_medoid(geometry, frame_ids, sums, n).support > 0 ==> best_medoid(
            geometry,
            frame_ids,
            sums,
            n,
        ).support == cluster_of(
            geometry,
            best_medoid(geometry, frame_ids, sums, n).index,
        ).len(),
        forall|i: int|
            0 <= i < n ==> (#[trigger] cluster_of(geometry, i)).len() <= best_medoid(
                geometry,
                frame_ids,
                sums,
                n,
            ).support,
    decreases n,
{
    if n > 0 {
        lemma_best_medoid(geometry, frame_ids, sums, (n - 1) as nat);
    }
}

/// The consensus is the largest angular cluster around any of the rotations.
pub proof fn consensus_is_the_largest_cluster<G, U, D, S, F, M, R, Q>(
    consensus: RotationConsensus,
    geometry: RotationGeometry,
    frame_ids: Seq<u64>,
    sums: Seq<Scalar>,
    numerics: RigNumerics<G, U, D, S, F, M, R, Q>,
    i: int,
) where
    G: Fn(&Vec<RigFrame>, &Vec<RigFrame>, Scalar) -> RotationGeometry,
    U: Fn(&Vec<Scalar>) -> Scalar,
    D: Fn(Scalar) -> Scalar,
    S: Fn(&AlignmentTask) -> SceneGeometry,
    F: Fn(&AlignmentTask, &Vec<usize>) -> Option<Sim3Fit>,
    M: Fn(&Vec<Scalar>) -> Scalar,
    R: Fn(usize, usize) -> Scalar,
    Q: Fn(&AlignmentTask, &Sim3Fit, &Vec<usize>, Scalar) -> FitQuality,
    requires
        is_consensus(consensus, geometry, frame_ids, sums, numerics),
        0 <= i < frame_ids.len(),
    ensures
        cluster_of(geometry, i).len() <= consensus.indices.len(),
{
    lemma_best_medoid(geometry, frame_ids, sums, frame_ids.len());
}

/// Selects the largest angular cluster; its centre gives the independent rotation.
pub fn rotation_consensus<G, U, D, S, F, M, R, Q>(
    frame_ids: &Vec<u64>,
    geometry: &RotationGeometry,
    numerics: &RigNumerics<G, U, D, S, F, M, R, Q>,
) -> (found: (RotationConsensus, Ghost<Seq<Scalar>>)) where
    G: Fn(&Vec<RigFrame>, &Vec<RigFrame>, Scalar) -> RotationGeometry,
    U: Fn(&Vec<Scalar>) -> Scalar,
    D: Fn(Scalar) -> Scalar,
    S: Fn(&AlignmentTask) -> SceneGeometry,
    F: Fn(&AlignmentTask, &Vec<usize>) -> Option<Sim3Fit>,
    M: Fn(&Vec<Scalar>) -> Scalar,
    R: Fn(usize, usize) -> Scalar,
    Q: Fn(&AlignmentTask, &Sim3Fit, &Vec<usize>, Scalar) -> FitQuality,
    requires
        frame_ids.len() > 0,
        geometry.covers(frame_ids.len() as nat),
        numerics.callable(),
    ensures
        is_consensus(found.0, *geometry, frame_ids@, found.1@, *numerics),
{
    let count: usize = frame_ids.len();
    let ghost mut sums: Seq<Scalar> = Seq::empty();
    let mut medoid: usize = 0;
    let mut support: usize = 0;
    let mut distance_sum = Scalar::infinity();
    let mut cluster: Vec<usize> = Vec::new();
    let mut i: usize = 0;
    while i < count
        invariant
            i <= count,
            count == frame_ids.len(),
            0 < count,
            geometry.covers(count as nat),
            numerics.callable(),
            sums.len() == i,
            forall|j: int|
                0 <= j < i ==> numerics.sums(
                    cluster_distances(*geometry, j),
                    #[trigger] sums[j],
                ),
            medoid == best_medoid(*geometry, frame_ids@, sums, i as nat).index,
            medoid < count,
            support == best_medoid(*geometry, frame_ids@, sums, i as nat).support,
            distance_sum == best_medoid(*geometry, frame_ids@, sums, i as nat).sum,
            support == cluster.len(),
            support > 0 ==> cluster@ == cluster_of(*geometry, medoid as int),
        decreases count - i,
    {
        let row = &geometry.distances[i];
        let ghost p = is_close(row@, geometry.radius);
        let mut near: Vec<usize> = Vec::new();
        let mut apart: Vec<Scalar> = Vec::new();
        let mut j: usize = 0;
        while j < count
            invariant
                j <= count,
                row.len() == count,
                p == is_close(row@, geometry.radius),
                near@ == indices_where(j as nat, p),
                apart@ == near@.map_values(|k: usize| row[k as int]),
            decreases count - j,
        {
            if row[j].le(geometry.radius) {
                let ghost shorter = near@;
                near.push(j);
                apart.push(row[j]);
                assert(apart@ =~= near@.map_values(|k: usize| row[k as int]));
            }
            j += 1;
        }
        assert(near@ == cluster_of(*geometry, i as int));
        assert(apart@ =~= cluster_distances(*geometry, i as int));
        let sum = (numerics.sum)(&apart);
        assert(numerics.sums(apart@, sum));
        proof {
            let before = sums;
            sums = sums.push(sum);
            lemma_medoid_prefix(*geometry, frame_ids@, before, sums, i as nat);
        }
        let better: bool = near.len() > support || (near.len() == support && (sum.lt(distance_sum)
            || (sum.le(distance_sum) && distance_sum.le(sum) && frame_ids[i] < frame_ids[medoid])));
        if better {
            medoid = i;
            support = near.len();
            distance_sum = sum;
            cluster = near;
        }
        i += 1;
    }
    if support == 0 {
        cluster.push(medoid);
    }
    let ghost best = best_medoid(*geometry, frame_ids@, sums, count as nat);
    proof {
        assert(cluster@ =~= consensus_indices(*geometry, best));
        lemma_indices_where(count as nat, is_close(geometry.distances[medoid as int]@, geometry.radius));
    }
    let row = &geometry.distances[medoid];
    let ghost spreads = cluster@.map_values(|k: usize| row[k as int]);
    let mut spread = Scalar::zero();
    let mut k: usize = 0;
    while k < cluster.len()
        invariant
            k <= cluster.len(),
            row.len() == count,
            spreads == cluster@.map_values(|k: usize| row[k as int]),
            forall|m: int| 0 <= m < cluster.len() ==> (#[trigger] cluster[m]) < count,
            spread == largest(spreads.take(k as int)),
        decreases cluster.len() - k,
    {
        assert(spreads.take(k + 1).drop_last() =~= spreads.take(k as int));
        if spread.lt(row[cluster[k]]) {
            spread = row[cluster[k]];
        }
        k += 1;
    }
    proof {
        lemma_take_all(spreads);
    }
    let max_disagreement_deg = (numerics.degrees)(spread);
    (
        RotationConsensus {
            rotation: geometry.rotations[medoid],
            medoid_frame_id: frame_ids[medoid],
            indices: cluster,
            max_disagreement_deg,
        },
        Ghost(sums),
    )
}

proof fn lemma_medoid_prefix(
    geometry: RotationGeometry,
    frame_ids: Seq<u64>,
    shorter: Seq<Scalar>,
    longer: Seq<Scalar>,
    n: nat,
)
    requires
        n <= shorter.len(),
        shorter.len() <= longer.len(),
        forall|i: int| 0 <= i < shorter.len() ==> #[trigger] longer[i] == shorter[i],
    ensures
        best_medoid(geometry, frame_ids, longer, n) == best_medoid(
            geometry,
            frame_ids,
            shorter,
            n,
        ),
    decreases n,
{
    if n > 0 {
        lemma_medoid_prefix(geometry, frame_ids, shorter, longer, (n - 1) as nat);
        assert(longer[n - 1] == shorter[n - 1]);
    }
}

/// The ids of some frames.
pub open spec fn ids_of(frames: Seq<RigFrame>) -> Seq<u64> {
    frames.map_values(|frame: RigFrame| frame.frame_id)
}

/// The first id that an earlier frame has already.
pub open spec fn first_duplicate(ids: Seq<u64>) -> Option<u64>
    decreases ids.len(),
{
    if ids.len() == 0 {
        None
    } else {
        match first_duplicate(ids.drop_last()) {
            Some(id) => Some(id),
            None => if ids.drop_last().contains(ids.last()) {
                Some(ids.last())
            } else {
                None
            },
        }
    }
}

/// The id of the first frame that does not satisfy `p`.
pub open spec fn first_failing(frames: Seq<RigFrame>, p: spec_fn(RigFrame) -> bool) -> Option<u64>
    decreases frames.len(),
{
    if frames.len() == 0 {
        None
    } else {
        match first_failing(frames.drop_last(), p) {
            Some(id) => Some(id),
            None => if p(frames.last()) {
                None
            } else {
                Some(frames.last().frame_id)
            },
        }
    }
}

pub open spec fn has_finite_pose() -> spec_fn(RigFrame) -> bool {
    |frame: RigFrame| frame.pose.finite()
}

pub open spec fn has_finite_center() -> spec_fn(RigFrame) -> bool {
    |frame: RigFrame| frame.camera_center.finite()
}

/// The ids that a list holds.
pub open spec fn is_among(ids: Seq<u64>) -> spec_fn(u64) -> bool {
    |id: u64| ids.contains(id)
}

/// The ids of the frames in both submaps, in increasing order.
pub open spec fn common_ids(source: Seq<RigFrame>, target: Seq<RigFrame>) -> Seq<u64> {
    sorted_set_of(ids_of(source)).filter(is_among(ids_of(target)))
}

/// The retained seam.
pub open spec fn seam_ids(
    source: Seq<RigFrame>,
    target: Seq<RigFrame>,
    config: RigSubmapAlignmentConfig,
) -> Seq<u64> {
    sampled(
        common_ids(source, target),
        config.max_boundary_frames as int,
        config.boundary_sampling,
    )
}

pub open spec fn is_frame_at(frames: Seq<RigFrame>, k: int, id: u64) -> bool {
    0 <= k < frames.len() && frames[k].frame_id == id
}

/// The frame with an id.
pub open spec fn frame_with(frames: Seq<RigFrame>, id: u64) -> RigFrame {
    frames[choose|k: int| is_frame_at(frames, k, id)]
}

/// The frames with some ids, in the order of the ids.
pub open spec fn frames_with(frames: Seq<RigFrame>, ids: Seq<u64>) -> Seq<RigFrame> {
    ids.map_values(|id: u64| frame_with(frames, id))
}

/// The camera centres of one rig frame in both submaps.
pub open spec fn center_match(source: RigFrame, target: RigFrame, id: u64) -> SubmapPointMatch {
    SubmapPointMatch {
        source_landmark_id: id,
        target_landmark_id: id,
        source_point: source.camera_center,
        target_point: target.camera_center,
    }
}

/// The matches of the seam.
pub open spec fn seam_matches(
    source: Seq<RigFrame>,
    target: Seq<RigFrame>,
    ids: Seq<u64>,
) -> Seq<SubmapPointMatch> {
    ids.map_values(
        |id: u64| center_match(frame_with(source, id), frame_with(target, id), id),
    )
}

fn copy_ids(frames: &Vec<RigFrame>) -> (ids: Vec<u64>)
    ensures
        ids@ == ids_of(frames@),
{
    let mut ids: Vec<u64> = Vec::new();
    let mut k: usize = 0;
    while k < frames.len()
        invariant
            k <= frames.len(),
            ids.len() == k,
            forall|j: int| 0 <= j < k ==> #[trigger] ids[j] == frames[j].frame_id,
        decreases frames.len() - k,
    {
        ids.push(frames[k].frame_id);
        k += 1;
    }
    assert(ids@ =~= ids_of(frames@));
    ids
}

/// The first id that occurs for the second time.
pub fn duplicate_frame_id(ids: &Vec<u64>) -> (duplicate: Option<u64>)
    ensures
        duplicate == first_duplicate(ids@),
        duplicate is None ==> ids@.no_duplicates(),
{
    let mut k: usize = 0;
    while k < ids.len()
        invariant
            k <= ids.len(),
            first_duplicate(ids@.take(k as int)) is None,
            ids@.take(k as int).no_duplicates(),
        decreases ids.len() - k,
    {
        let mut j: usize = 0;
        let ghost shorter = ids@.take(k as int);
        let ghost longer = ids@.take(k + 1);
        assert(longer.drop_last() =~= shorter);
        while j < k
            invariant
                j <= k < ids.len(),
                shorter == ids@.take(k as int),
                longer == ids@.take(k + 1),
                longer.drop_last() == shorter,
                first_duplicate(shorter) is None,
                forall|i: int| 0 <= i < j ==> ids[i] != ids[k as int],
            decreases k - j,
        {
            if ids[j] == ids[k] {
                proof {
                    assert(shorter[j as int] == ids[k as int]);
                    assert(first_duplicate(longer) == Some(ids[k as int]));
                    lemma_first_duplicate_stays(ids@, k + 1);
                }
                return Some(ids[k]);
            }
            j += 1;
        }
        proof {
            assert(!shorter.contains(ids[k as int]));
            assert forall|a: int, b: int| 0 <= a < b < longer.len() implies longer[a] != longer[b] by {
                if b < k {
                    assert(shorter[a] == longer[a]);
                    assert(shorter[b] == longer[b]);
                } else {
                    assert(longer[a] == ids[a]);
                }
            }
        }
        k += 1;
    }
    proof {
        lemma_take_all(ids@);
    }
    None
}

proof fn lemma_first_duplicate_stays(ids: Seq<u64>, n: int)
    requires
        0 <= n <= ids.len(),
        first_duplicate(ids.take(n)) is Some,
    ensures
        first_duplicate(ids) == first_duplicate(ids.take(n)),
    decreases ids.len() - n,
{
    if n < ids.len() {
        assert(ids.take(n + 1).drop_last() =~= ids.take(n));
        lemma_first_duplicate_stays(ids, n + 1);
    } else {
        assert(ids.take(n) =~= ids);
    }
}

/// The first frame whose pose, or whose camera centre, is not finite.
fn first_nonfinite(frames: &Vec<RigFrame>, poses: bool) -> (found: Option<u64>)
    ensures
        poses ==> found == first_failing(frames@, has_finite_pose()),
        !poses ==> found == first_failing(frames@, has_finite_center()),
{
    let ghost p = if poses {
        has_finite_pose()
    } else {
        has_finite_center()
    };
    let mut k: usize = 0;
    while k < frames.len()
        invariant
            k <= frames.len(),
            p == if poses {
                has_finite_pose()
            } else {
                has_finite_center()
            },
            first_failing(frames@.take(k as int), p) is None,
        decreases frames.len() - k,
    {
        assert(frames@.take(k + 1).drop_last() =~= frames@.take(k as int));
        let finite: bool = if poses {
            frames[k].pose.is_finite()
        } else {
            frames[k].camera_center.is_finite()
        };
        if !finite {
            proof {
                assert(first_failing(frames@.take(k + 1), p) == Some(frames[k as int].frame_id));
                lemma_first_failing_stays(frames@, p, k + 1);
            }
            return Some(frames[k].frame_id);
        }
        k += 1;
    }
    proof {
        lemma_take_all(frames@);
    }
    None
}

proof fn lemma_first_failing_stays(frames: Seq<RigFrame>, p: spec_fn(RigFrame) -> bool, n: int)
    requires
        0 <= n <= frames.len(),
        first_failing(frames.take(n), p) is Some,
    ensures
        first_failing(frames, p) == first_failing(frames.take(n), p),
    decreases frames.len() - n,
{
    if n < frames.len() {
        assert(frames.take(n + 1).drop_last() =~= frames.take(n));
        lemma_first_failing_stays(frames, p, n + 1);
    } else {
        assert(frames.take(n) =~= frames);
    }
}

fn intersect_ids(sorted: &Vec<u64>, other: &Vec<u64>) -> (common: Vec<u64>)
    ensures
        common@ == sorted@.filter(is_among(other@)),
{
    let ghost p = is_among(other@);
    let mut common: Vec<u64> = Vec::new();
    let mut k: usize = 0;
    while k < sorted.len()
        invariant
            k <= sorted.len(),
            p == is_among(other@),
            common@ == sorted@.take(k as int).filter(p),
        decreases sorted.len() - k,
    {
        proof {
            lemma_filter_take(sorted@, k as int, p);
        }
        if contains_id(other, sorted[k]) {
            common.push(sorted[k]);
        }
        k += 1;
    }
    proof {
        lemma_take_all(sorted@);
    }
    common
}

/// The frames with some ids; each id belongs to one frame.
fn select_frames(frames: &Vec<RigFrame>, ids: &Vec<u64>) -> (selected: Vec<RigFrame>)
    requires
        ids_of(frames@).no_duplicates(),
        forall|k: int| 0 <= k < ids.len() ==> ids_of(frames@).contains(#[trigger] ids[k]),
    ensures
        selected@ == frames_with(frames@, ids@),
{
    let mut selected: Vec<RigFrame> = Vec::new();
    let mut i: usize = 0;
    while i < ids.len()
        invariant
            i <= ids.len(),
            ids_of(frames@).no_duplicates(),
            forall|k: int| 0 <= k < ids.len() ==> ids_of(frames@).contains(#[trigger] ids[k]),
            selected.len() == i,
            forall|k: int| 0 <= k < i ==> #[trigger] selected[k] == frame_with(frames@, ids[k]),
        decreases ids.len() - i,
    {
        let id: u64 = ids[i];
        let ghost at = ids_of(frames@).index_of(id);
        assert(ids_of(frames@).contains(ids[i as int]));
        assert(ids_of(frames@)[at] == id);
        assert(is_frame_at(frames@, at, id));
        let mut k: usize = 0;
        while frames[k].frame_id != id
            invariant
                k <= at < frames.len(),
                is_frame_at(frames@, at, id),
            decreases at - k,
        {
            k += 1;
        }
        proof {
            let chosen = choose|j: int| is_frame_at(frames@, j, id);
            assert(is_frame_at(frames@, k as int, id));
            assert(ids_of(frames@)[chosen] == id);
            assert(ids_of(frames@)[k as int] == id);
        }
        selected.push(frames[k]);
        i += 1;
    }
    assert(selected@ =~= frames_with(frames@, ids@));
    selected
}

/// Matches ordered by source landmark and by target landmark.
pub open spec fn landmark_key(point_match: SubmapPointMatch) -> SortKey {
    SortKey::two(point_match.source_landmark_id as i128, point_match.target_landmark_id as i128)
}

/// One sample for each match alone, ordered by landmark.
pub open spec fn are_single_samples(samples: Seq<Vec<usize>>, matches: Seq<SubmapPointMatch>) -> bool {
    let order = stable_order_of(
        matches.map_values(|point_match: SubmapPointMatch| landmark_key(point_match)),
    );
    &&& samples.len() == matches.len()
    &&& forall|k: int| 0 <= k < samples.len() ==> (#[trigger] samples[k])@ == seq![order[k]]
}

/// `result` is that of the fixed-rotation estimator: with unit scale, every match gives
/// a hypothesis; else random pairs of matches do.
pub open spec fn is_fixed_rotation_alignment<S, F, M, R, Q>(
    task: AlignmentTask,
    numerics: AlignmentNumerics<S, F, M, R, Q>,
    result: Result<SubmapSim3Constraint, SubmapSim3Rejection>,
) -> bool where
    S: Fn(&AlignmentTask) -> SceneGeometry,
    F: Fn(&AlignmentTask, &Vec<usize>) -> Option<Sim3Fit>,
    M: Fn(&Vec<Scalar>) -> Scalar,
    R: Fn(usize, usize) -> Scalar,
    Q: Fn(&AlignmentTask, &Sim3Fit, &Vec<usize>, Scalar) -> FitQuality,
{
    if task.kind is UnitScale {
        exists|samples: Seq<Vec<usize>>|
            are_single_samples(samples, task.matches@) && #[trigger] is_alignment(
                task,
                samples,
                numerics,
                result,
            )
    } else {
        is_random_alignment(task, 2, numerics, result)
    }
}

/// The kind of a fixed-rotation estimate.
pub open spec fn fixed_kind(force_unit_scale: bool) -> AlignmentKind {
    if force_unit_scale {
        AlignmentKind::UnitScale
    } else {
        AlignmentKind::FixedRotation
    }
}

/// Estimates a similarity while keeping the already verified rotation fixed: scale and
/// shift of pairs of camera centres, or the shift alone.
pub fn estimate_fixed_rotation_fallback<S, F, M, R, Q>(
    source_submap_id: u64,
    target_submap_id: u64,
    matches: &Vec<SubmapPointMatch>,
    rotation: &Quaternion,
    config: &SubmapSim3AlignmentConfig,
    force_unit_scale: bool,
    numerics: &AlignmentNumerics<S, F, M, R, Q>,
) -> (result: Result<SubmapSim3Constraint, SubmapSim3Rejection>) where
    S: Fn(&AlignmentTask) -> SceneGeometry,
    F: Fn(&AlignmentTask, &Vec<usize>) -> Option<Sim3Fit>,
    M: Fn(&Vec<Scalar>) -> Scalar,
    R: Fn(usize, usize) -> Scalar,
    Q: Fn(&AlignmentTask, &Sim3Fit, &Vec<usize>, Scalar) -> FitQuality,
    requires
        numerics.callable(),
    ensures
        is_fixed_rotation_alignment(
            AlignmentTask {
                kind: fixed_kind(force_unit_scale),
                source_submap_id,
                target_submap_id,
                matches,
                rotation: *rotation,
                config: *config,
            },
            *numerics,
            result,
        ),
        result matches Ok(constraint) ==> holds_what_is_given(
            AlignmentTask {
                kind: fixed_kind(force_unit_scale),
                source_submap_id,
                target_submap_id,
                matches,
                rotation: *rotation,
                config: *config,
            },
            constraint,
        ),
{
    if force_unit_scale {
        return estimate_fixed_rotation_unit_scale(
            source_submap_id,
            target_submap_id,
            matches,
            rotation,
            config,
            numerics,
        );
    }
    let task = AlignmentTask {
        kind: AlignmentKind::FixedRotation,
        source_submap_id,
        target_submap_id,
        matches,
        rotation: *rotation,
        config: *config,
    };
    let samples = draw_pairs(matches.len(), config.ransac_iterations, config.random_seed);
    align_with_samples(&task, &samples, numerics)
}

/// Estimates a translation with fixed rotation and unit scale. Every match gives one
/// hypothesis, taken in the order of the landmarks.
pub fn estimate_fixed_rotation_unit_scale<S, F, M, R, Q>(
    source_submap_id: u64,
    target_submap_id: u64,
    matches: &Vec<SubmapPointMatch>,
    rotation: &Quaternion,
    config: &SubmapSim3AlignmentConfig,
    numerics: &AlignmentNumerics<S, F, M, R, Q>,
) -> (result: Result<SubmapSim3Constraint, SubmapSim3Rejection>) where
    S: Fn(&AlignmentTask) -> SceneGeometry,
    F: Fn(&AlignmentTask, &Vec<usize>) -> Option<Sim3Fit>,
    M: Fn(&Vec<Scalar>) -> Scalar,
    R: Fn(usize, usize) -> Scalar,
    Q: Fn(&AlignmentTask, &Sim3Fit, &Vec<usize>, Scalar) -> FitQuality,
    requires
        numerics.callable(),
    ensures
        is_fixed_rotation_alignment(
            AlignmentTask {
                kind: AlignmentKind::UnitScale,
                source_submap_id,
                target_submap_id,
                matches,
                rotation: *rotation,
                config: *config,
            },
            *numerics,
            result,
        ),
        result matches Ok(constraint) ==> holds_what_is_given(
            AlignmentTask {
                kind: AlignmentKind::UnitScale,
                source_submap_id,
                target_submap_id,
                matches,
                rotation: *rotation,
                config: *config,
            },
            constraint,
        ),
{
    let mut keys: Vec<SortKey> = Vec::new();
    let mut i: usize = 0;
    while i < matches.len()
        invariant
            i <= matches.len(),
            keys.len() == i,
            forall|k: int| 0 <= k < i ==> #[trigger] keys[k] == landmark_key(matches[k]),
        decreases matches.len() - i,
    {
        keys.push(
            SortKey::two(
                matches[i].source_landmark_id as i128,
                matches[i].target_landmark_id as i128,
            ),
        );
        i += 1;
    }
    assert(keys@ =~= matches@.map_values(
        |point_match: SubmapPointMatch| landmark_key(point_match),
    ));
    let order = stable_order(&keys);
    let mut samples: Vec<Vec<usize>> = Vec::new();
    let mut k: usize = 0;
    while k < order.len()
        invariant
            k <= order.len(),
            samples.len() == k,
            forall|j: int| 0 <= j < k ==> (#[trigger] samples[j])@ == seq![order[j]],
        decreases order.len() - k,
    {
        let mut sample: Vec<usize> = Vec::new();
        sample.push(order[k]);
        assert(sample@ =~= seq![order[k as int]]);
        samples.push(sample);
        k += 1;
    }
    assert(are_single_samples(samples@, matches@));
    let task = AlignmentTask {
        kind: AlignmentKind::UnitScale,
        source_submap_id,
        target_submap_id,
        matches,
        rotation: *rotation,
        config: *config,
    };
    align_with_samples(&task, &samples, numerics)
}

/// The attempt was rejected, with these diagnostics and details.
pub open spec fn is_rejected(
    result: Result<RigSubmapAlignmentResult, RigSubmapAlignmentRejection>,
    reason: RigSubmapAlignmentRejectionReason,
    diagnostics: RigDiagnosticsModel,
    offender: Option<(RigSubmapInputSide, u64)>,
    primary: Option<SubmapSim3Rejection>,
    secondary: Option<SubmapSim3Rejection>,
) -> bool {
    result matches Err(rejection) && {
        &&& rejection.reason == reason
        &&& rejection.diagnostics@ == diagnostics
        &&& rejection.offending_side == (match offender {
            Some(found) => Some(found.0),
            None => None,
        })
        &&& rejection.offending_frame_id == (match offender {
            Some(found) => Some(found.1),
            None => None,
        })
        &&& rejection.sim3_rejection == primary
        &&& rejection.fallback_rejection == secondary
    }
}

/// The attempt was admitted with a constraint and these diagnostics, which also say how
/// many inliers the constraint has.
pub open spec fn is_admitted(
    result: Result<RigSubmapAlignmentResult, RigSubmapAlignmentRejection>,
    constraint: SubmapSim3Constraint,
    diagnostics: RigDiagnosticsModel,
) -> bool {
    result matches Ok(admitted) && {
        &&& admitted.constraint == constraint
        &&& admitted.diagnostics@ == (RigDiagnosticsModel {
            sim3_inlier_count: Some(constraint.inlier_match_indices.len()),
            sim3_inlier_ratio: Some(constraint.inlier_ratio),
            ..diagnostics
        })
    }
}

/// The diagnostics after an estimator's rejection.
pub open spec fn with_counts_of(
    diagnostics: RigDiagnosticsModel,
    rejection: SubmapSim3Rejection,
) -> RigDiagnosticsModel {
    RigDiagnosticsModel {
        sim3_inlier_count: Some(rejection.inlier_count),
        sim3_inlier_ratio: Some(rejection.inlier_ratio),
        ..diagnostics
    }
}

/// The route with the fixed-rotation estimator as the primary one.
pub open spec fn is_fixed_primary_route(
    config: RigSubmapAlignmentConfig,
    base: RigDiagnosticsModel,
    fixed: Result<SubmapSim3Constraint, SubmapSim3Rejection>,
    generic: Result<SubmapSim3Constraint, SubmapSim3Rejection>,
    result: Result<RigSubmapAlignmentResult, RigSubmapAlignmentRejection>,
) -> bool {
    let primary = RigDiagnosticsModel {
        alignment_method: Some(RigSubmapAlignmentMethod::FixedRotationPrimary),
        ..base
    };
    match fixed {
        Ok(constraint) => is_admitted(result, constraint, primary),
        Err(first) => {
            let failed = RigDiagnosticsModel {
                fixed_rotation_rejection: Some(first),
                ..with_counts_of(primary, first)
            };
            if !config.allow_generic_fallback_after_fixed_rotation {
                is_rejected(
                    result,
                    RigSubmapAlignmentRejectionReason::Sim3Rejected,
                    failed,
                    None,
                    Some(first),
                    None,
                )
            } else {
                let attempted = RigDiagnosticsModel {
                    fallback_attempted: true,
                    alignment_method: Some(RigSubmapAlignmentMethod::GenericFallback),
                    ..failed
                };
                match generic {
                    Ok(constraint) => is_admitted(
                        result,
                        constraint,
                        RigDiagnosticsModel { fallback_used: true, ..attempted },
                    ),
                    Err(second) => is_rejected(
                        result,
                        RigSubmapAlignmentRejectionReason::Sim3Rejected,
                        RigDiagnosticsModel {
                            generic_fallback_rejection: Some(second),
                            ..with_counts_of(attempted, second)
                        },
                        None,
                        Some(first),
                        Some(second),
                    ),
                }
            }
        },
    }
}

/// The route with the generic estimator as the primary one.
pub open spec fn is_generic_primary_route(
    config: RigSubmapAlignmentConfig,
    base: RigDiagnosticsModel,
    generic: Result<SubmapSim3Constraint, SubmapSim3Rejection>,
    fixed: Result<SubmapSim3Constraint, SubmapSim3Rejection>,
    result: Result<RigSubmapAlignmentResult, RigSubmapAlignmentRejection>,
) -> bool {
    let primary = RigDiagnosticsModel {
        alignment_method: Some(RigSubmapAlignmentMethod::Generic),
        ..base
    };
    match generic {
        Ok(constraint) => is_admitted(result, constraint, primary),
        Err(first) => {
            let failed = RigDiagnosticsModel {
                generic_sim3_rejection: Some(first),
                ..with_counts_of(primary, first)
            };
            if !config.allow_fixed_rotation_fallback {
                is_rejected(
                    result,
                    RigSubmapAlignmentRejectionReason::Sim3Rejected,
                    failed,
                    None,
                    Some(first),
                    None,
                )
            } else {
                let attempted = RigDiagnosticsModel {
                    fallback_attempted: true,
                    alignment_method: Some(RigSubmapAlignmentMethod::FixedRotationFallback),
                    ..failed
                };
                match fixed {
                    Ok(constraint) => is_admitted(
                        result,
                        constraint,
                        RigDiagnosticsModel { fallback_used: true, ..attempted },
                    ),
                    Err(second) => is_rejected(
                        result,
                        RigSubmapAlignmentRejectionReason::Sim3Rejected,
                        RigDiagnosticsModel { fallback_rejection: Some(second), ..attempted },
                        None,
                        Some(first),
                        Some(second),
                    ),
                }
            }
        },
    }
}

/// What the seam's matches and the consensus rotation lead to: the estimators that the
/// configuration calls for, and the route that their verdicts take.
pub open spec fn is_routed<S, F, M, R, Q>(
    source_submap_id: u64,
    target_submap_id: u64,
    matches: Vec<SubmapPointMatch>,
    rotation: Quaternion,
    config: RigSubmapAlignmentConfig,
    base: RigDiagnosticsModel,
    generic: Result<SubmapSim3Constraint, SubmapSim3Rejection>,
    fixed: Result<SubmapSim3Constraint, SubmapSim3Rejection>,
    numerics: AlignmentNumerics<S, F, M, R, Q>,
    result: Result<RigSubmapAlignmentResult, RigSubmapAlignmentRejection>,
) -> bool where
    S: Fn(&AlignmentTask) -> SceneGeometry,
    F: Fn(&AlignmentTask, &Vec<usize>) -> Option<Sim3Fit>,
    M: Fn(&Vec<Scalar>) -> Scalar,
    R: Fn(usize, usize) -> Scalar,
    Q: Fn(&AlignmentTask, &Sim3Fit, &Vec<usize>, Scalar) -> FitQuality,
{
    let fixed_task = AlignmentTask {
        kind: fixed_kind(config.force_fixed_rotation_unit_scale),
        source_submap_id,
        target_submap_id,
        matches: &matches,
        rotation,
        config: config.alignment,
    };
    let generic_task = AlignmentTask { kind: AlignmentKind::Generic, ..fixed_task };
    if config.prefer_fixed_rotation_alignment {
        &&& is_fixed_rotation_alignment(fixed_task, numerics, fixed)
        &&& fixed is Err && config.allow_generic_fallback_after_fixed_rotation
            ==> is_random_alignment(generic_task, 3, numerics, generic)
        &&& is_fixed_primary_route(config, base, fixed, generic, result)
    } else {
        &&& is_random_alignment(generic_task, 3, numerics, generic)
        &&& generic is Err && config.allow_fixed_rotation_fallback ==> is_fixed_rotation_alignment(
            fixed_task,
            numerics,
            fixed,
        )
        &&& is_generic_primary_route(config, base, generic, fixed, result)
    }
}

/// Runs the estimators that the configuration calls for.
fn route_estimators<S, F, M, R, Q>(
    source_submap_id: u64,
    target_submap_id: u64,
    matches: &Vec<SubmapPointMatch>,
    rotation: &Quaternion,
    config: &RigSubmapAlignmentConfig,
    base: RigSubmapAlignmentDiagnostics,
    numerics: &AlignmentNumerics<S, F, M, R, Q>,
) -> (result: Result<RigSubmapAlignmentResult, RigSubmapAlignmentRejection>) where
    S: Fn(&AlignmentTask) -> SceneGeometry,
    F: Fn(&AlignmentTask, &Vec<usize>) -> Option<Sim3Fit>,
    M: Fn(&Vec<Scalar>) -> Scalar,
    R: Fn(usize, usize) -> Scalar,
    Q: Fn(&AlignmentTask, &Sim3Fit, &Vec<usize>, Scalar) -> FitQuality,
    requires
        numerics.callable(),
    ensures
        exists|
            generic: Result<SubmapSim3Constraint, SubmapSim3Rejection>,
            fixed: Result<SubmapSim3Constraint, SubmapSim3Rejection>,
        | #[trigger]
            is_routed(
                source_submap_id,
                target_submap_id,
                *matches,
                *rotation,
                *config,
                base@,
                generic,
                fixed,
                *numerics,
                result,
            ),
{
    let ghost first_base = base@;
    let mut diagnostics = base;
    if config.prefer_fixed_rotation_alignment {
        diagnostics.alignment_method = Some(RigSubmapAlignmentMethod::FixedRotationPrimary);
        let fixed = estimate_fixed_rotation_fallback(
            source_submap_id,
            target_submap_id,
            matches,
            rotation,
            &config.alignment,
            config.force_fixed_rotation_unit_scale,
            numerics,
        );
        let ghost the_fixed = fixed;
        match fixed {
            Ok(constraint) => {
                diagnostics.sim3_inlier_count = Some(constraint.inlier_match_indices.len());
                diagnostics.sim3_inlier_ratio = Some(constraint.inlier_ratio);
                let result: Result<RigSubmapAlignmentResult, RigSubmapAlignmentRejection> = Ok(
                    RigSubmapAlignmentResult { constraint, diagnostics },
                );
                assert(is_routed(
                    source_submap_id,
                    target_submap_id,
                    *matches,
                    *rotation,
                    *config,
                    first_base,
                    the_fixed,
                    the_fixed,
                    *numerics,
                    result,
                ));
                result
            },
            Err(first) => {
                diagnostics.sim3_inlier_count = Some(first.inlier_count);
                diagnostics.sim3_inlier_ratio = Some(first.inlier_ratio);
                diagnostics.fixed_rotation_rejection = Some(first);
                if !config.allow_generic_fallback_after_fixed_rotation {
                    let result: Result<RigSubmapAlignmentResult, RigSubmapAlignmentRejection> =
                        Err(sim3_rejected(diagnostics, first, None));
                    assert(is_routed(
                        source_submap_id,
                        target_submap_id,
                        *matches,
                        *rotation,
                        *config,
                        first_base,
                        the_fixed,
                        the_fixed,
                        *numerics,
                        result,
                    ));
                    return result;
                }
                diagnostics.fallback_attempted = true;
                diagnostics.alignment_method = Some(RigSubmapAlignmentMethod::GenericFallback);
                let generic = estimate_submap_sim3_constraint(
                    source_submap_id,
                    target_submap_id,
                    matches,
                    rotation,
                    &config.alignment,
                    numerics,
                );
                let ghost the_generic = generic;
                let result: Result<RigSubmapAlignmentResult, RigSubmapAlignmentRejection> =
                    match generic {
                    Ok(constraint) => {
                        diagnostics.fallback_used = true;
                        diagnostics.sim3_inlier_count = Some(
                            constraint.inlier_match_indices.len(),
                        );
                        diagnostics.sim3_inlier_ratio = Some(constraint.inlier_ratio);
                        Ok(RigSubmapAlignmentResult { constraint, diagnostics })
                    },
                    Err(second) => {
                        diagnostics.sim3_inlier_count = Some(second.inlier_count);
                        diagnostics.sim3_inlier_ratio = Some(second.inlier_ratio);
                        diagnostics.generic_fallback_rejection = Some(second);
                        Err(sim3_rejected(diagnostics, first, Some(second)))
                    },
                };
                assert(is_routed(
                    source_submap_id,
                    target_submap_id,
                    *matches,
                    *rotation,
                    *config,
                    first_base,
                    the_generic,
                    the_fixed,
                    *numerics,
                    result,
                ));
                result
            },
        }
    } else {
        diagnostics.alignment_method = Some(RigSubmapAlignmentMethod::Generic);
        let generic = estimate_submap_sim3_constraint(
            source_submap_id,
            target_submap_id,
            matches,
            rotation,
            &config.alignment,
            numerics,
        );
        let ghost the_generic = generic;
        match generic {
            Ok(constraint) => {
                diagnostics.sim3_inlier_count = Some(constraint.inlier_match_indices.len());
                diagnostics.sim3_inlier_ratio = Some(constraint.inlier_ratio);
                let result: Result<RigSubmapAlignmentResult, RigSubmapAlignmentRejection> = Ok(
                    RigSubmapAlignmentResult { constraint, diagnostics },
                );
                assert(is_routed(
                    source_submap_id,
                    target_submap_id,
                    *matches,
                    *rotation,
                    *config,
                    first_base,
                    the_generic,
                    the_generic,
                    *numerics,
                    result,
                ));
                result
            },
            Err(first) => {
                diagnostics.sim3_inlier_count = Some(first.inlier_count);
                diagnostics.sim3_inlier_ratio = Some(first.inlier_ratio);
                diagnostics.generic_sim3_rejection = Some(first);
                if !config.allow_fixed_rotation_fallback {
                    let result: Result<RigSubmapAlignmentResult, RigSubmapAlignmentRejection> =
                        Err(sim3_rejected(diagnostics, first, None));
                    assert(is_routed(
                        source_submap_id,
                        target_submap_id,
                        *matches,
                        *rotation,
                        *config,
                        first_base,
                        the_generic,
                        the_generic,
                        *numerics,
                        result,
                    ));
                    return result;
                }
                diagnostics.fallback_attempted = true;
                diagnostics.alignment_method = Some(
                    RigSubmapAlignmentMethod::FixedRotationFallback,
                );
                let fixed = estimate_fixed_rotation_fallback(
                    source_submap_id,
                    target_submap_id,
                    matches,
                    rotation,
                    &config.alignment,
                    config.force_fixed_rotation_unit_scale,
                    numerics,
                );
                let ghost the_fixed = fixed;
                let result: Result<RigSubmapAlignmentResult, RigSubmapAlignmentRejection> =
                    match fixed {
                    Ok(constraint) => {
                        diagnostics.fallback_used = true;
                        diagnostics.sim3_inlier_count = Some(
                            constraint.inlier_match_indices.len(),
                        );
                        diagnostics.sim3_inlier_ratio = Some(constraint.inlier_ratio);
                        Ok(RigSubmapAlignmentResult { constraint, diagnostics })
                    },
                    Err(second) => {
                        diagnostics.fallback_rejection = Some(second);
                        Err(sim3_rejected(diagnostics, first, Some(second)))
                    },
                };
                assert(is_routed(
                    source_submap_id,
                    target_submap_id,
                    *matches,
                    *rotation,
                    *config,
                    first_base,
                    the_generic,
                    the_fixed,
                    *numerics,
                    result,
                ));
                result
            },
        }
    }
}

fn sim3_rejected(
    diagnostics: RigSubmapAlignmentDiagnostics,
    primary: SubmapSim3Rejection,
    secondary: Option<SubmapSim3Rejection>,
) -> (rejection: RigSubmapAlignmentRejection)
    ensures
        rejection == (RigSubmapAlignmentRejection {
            reason: RigSubmapAlignmentRejectionReason::Sim3Rejected,
            diagnostics,
            offending_side: None,
            offending_frame_id: None,
            sim3_rejection: Some(primary),
            fallback_rejection: secondary,
        }),
{
    RigSubmapAlignmentRejection {
        reason: RigSubmapAlignmentRejectionReason::Sim3Rejected,
        diagnostics,
        offending_side: None,
        offending_frame_id: None,
        sim3_rejection: Some(primary),
        fallback_rejection: secondary,
    }
}

fn input_rejected(
    reason: RigSubmapAlignmentRejectionReason,
    diagnostics: RigSubmapAlignmentDiagnostics,
    offending_side: Option<RigSubmapInputSide>,
    offending_frame_id: Option<u64>,
) -> (rejection: RigSubmapAlignmentRejection)
    ensures
        rejection == (RigSubmapAlignmentRejection {
            reason,
            diagnostics,
            offending_side,
            offending_frame_id,
            sim3_rejection: None,
            fallback_rejection: None,
        }),
{
    RigSubmapAlignmentRejection {
        reason,
        diagnostics,
        offending_side,
        offending_frame_id,
        sim3_rejection: None,
        fallback_rejection: None,
    }
}

/// What the seam's rotations lead to: a rejection where the consensus is too small, else
/// the route that the estimators take.
pub open spec fn is_consensus_verdict<G, U, D, S, F, M, R, Q>(
    source_submap_id: u64,
    target_submap_id: u64,
    seam: Seq<u64>,
    matches: Seq<SubmapPointMatch>,
    consensus: RotationConsensus,
    ratio: Scalar,
    config: RigSubmapAlignmentConfig,
    counted: RigDiagnosticsModel,
    numerics: RigNumerics<G, U, D, S, F, M, R, Q>,
    result: Result<RigSubmapAlignmentResult, RigSubmapAlignmentRejection>,
) -> bool where
    G: Fn(&Vec<RigFrame>, &Vec<RigFrame>, Scalar) -> RotationGeometry,
    U: Fn(&Vec<Scalar>) -> Scalar,
    D: Fn(Scalar) -> Scalar,
    S: Fn(&AlignmentTask) -> SceneGeometry,
    F: Fn(&AlignmentTask, &Vec<usize>) -> Option<Sim3Fit>,
    M: Fn(&Vec<Scalar>) -> Scalar,
    R: Fn(usize, usize) -> Scalar,
    Q: Fn(&AlignmentTask, &Sim3Fit, &Vec<usize>, Scalar) -> FitQuality,
{
    let diagnostics = RigDiagnosticsModel {
        camera_centre_match_count: seam.len() as int,
        rotation_candidate_count: seam.len() as int,
        rotation_consensus_count: consensus.indices.len() as int,
        rotation_consensus_ratio: ratio,
        rotation_consensus_max_disagreement_deg: consensus.max_disagreement_deg,
        rotation_medoid_frame_id: Some(consensus.medoid_frame_id),
        ..counted
    };
    if !ratio.is_finite() || ratio.lt(config.min_rotation_consensus_ratio) {
        is_rejected(
            result,
            RigSubmapAlignmentRejectionReason::LowRotationConsensus,
            diagnostics,
            None,
            None,
            None,
        )
    } else {
        exists|
            list: Vec<SubmapPointMatch>,
            generic: Result<SubmapSim3Constraint, SubmapSim3Rejection>,
            fixed: Result<SubmapSim3Constraint, SubmapSim3Rejection>,
        |
            list@ == matches && #[trigger] is_routed(
                source_submap_id,
                target_submap_id,
                list,
                consensus.rotation,
                config,
                diagnostics,
                generic,
                fixed,
                numerics.alignment,
                result,
            )
    }
}

/// The rotations of the seam and their consensus are what the arithmetic makes of the
/// seam's frames.
pub open spec fn is_seam_consensus<G, U, D, S, F, M, R, Q>(
    source: Seq<RigFrame>,
    target: Seq<RigFrame>,
    seam: Seq<u64>,
    config: RigSubmapAlignmentConfig,
    geometry: RotationGeometry,
    sums: Seq<Scalar>,
    consensus: RotationConsensus,
    ratio: Scalar,
    numerics: RigNumerics<G, U, D, S, F, M, R, Q>,
) -> bool where
    G: Fn(&Vec<RigFrame>, &Vec<RigFrame>, Scalar) -> RotationGeometry,
    U: Fn(&Vec<Scalar>) -> Scalar,
    D: Fn(Scalar) -> Scalar,
    S: Fn(&AlignmentTask) -> SceneGeometry,
    F: Fn(&AlignmentTask, &Vec<usize>) -> Option<Sim3Fit>,
    M: Fn(&Vec<Scalar>) -> Scalar,
    R: Fn(usize, usize) -> Scalar,
    Q: Fn(&AlignmentTask, &Sim3Fit, &Vec<usize>, Scalar) -> FitQuality,
{
    &&& exists|source_seam: Vec<RigFrame>, target_seam: Vec<RigFrame>|
        source_seam@ == frames_with(source, seam) && target_seam@ == frames_with(target, seam)
            && #[trigger] call_ensures(
            numerics.rotations,
            (&source_seam, &target_seam, config.rotation_consensus_deg),
            geometry,
        )
    &&& is_consensus(consensus, geometry, seam, sums, numerics)
    &&& call_ensures(
        numerics.alignment.fraction,
        (consensus.indices.len(), seam.len() as usize),
        ratio,
    )
}

/// `result` is that of a rig-submap alignment: the first broken rule rejects, and else
/// the consensus of the seam's rotations decides.
pub open spec fn is_rig_alignment<G, U, D, S, F, M, R, Q>(
    source_submap_id: u64,
    target_submap_id: u64,
    source: Seq<RigFrame>,
    target: Seq<RigFrame>,
    config: RigSubmapAlignmentConfig,
    numerics: RigNumerics<G, U, D, S, F, M, R, Q>,
    result: Result<RigSubmapAlignmentResult, RigSubmapAlignmentRejection>,
) -> bool where
    G: Fn(&Vec<RigFrame>, &Vec<RigFrame>, Scalar) -> RotationGeometry,
    U: Fn(&Vec<Scalar>) -> Scalar,
    D: Fn(Scalar) -> Scalar,
    S: Fn(&AlignmentTask) -> SceneGeometry,
    F: Fn(&AlignmentTask, &Vec<usize>) -> Option<Sim3Fit>,
    M: Fn(&Vec<Scalar>) -> Scalar,
    R: Fn(usize, usize) -> Scalar,
    Q: Fn(&AlignmentTask, &Sim3Fit, &Vec<usize>, Scalar) -> FitQuality,
{
    let nothing = counts_only(
        source.len() as int,
        target.len() as int,
        0,
        0,
        0,
        Seq::empty(),
        config.rotation_consensus_deg,
    );
    let unique = RigDiagnosticsModel {
        source_unique_frame_count: sorted_set_of(ids_of(source)).len() as int,
        target_unique_frame_count: sorted_set_of(ids_of(target)).len() as int,
        ..nothing
    };
    let seam = seam_ids(source, target, config);
    let counted = RigDiagnosticsModel {
        common_frame_count: common_ids(source, target).len() as int,
        retained_frame_count: seam.len() as int,
        retained_frame_ids: seam,
        ..unique
    };
    if !config.valid() {
        is_rejected(
            result,
            RigSubmapAlignmentRejectionReason::InvalidConfiguration,
            nothing,
            None,
            None,
            None,
        )
    } else if let Some(id) = first_duplicate(ids_of(source)) {
        is_rejected(
            result,
            RigSubmapAlignmentRejectionReason::DuplicateFrameId,
            unique,
            Some((RigSubmapInputSide::Source, id)),
            None,
            None,
        )
    } else if let Some(id) = first_duplicate(ids_of(target)) {
        is_rejected(
            result,
            RigSubmapAlignmentRejectionReason::DuplicateFrameId,
            unique,
            Some((RigSubmapInputSide::Target, id)),
            None,
            None,
        )
    } else if let Some(id) = first_failing(source, has_finite_pose()) {
        is_rejected(
            result,
            RigSubmapAlignmentRejectionReason::NonFinitePose,
            unique,
            Some((RigSubmapInputSide::Source, id)),
            None,
            None,
        )
    } else if let Some(id) = first_failing(target, has_finite_pose()) {
        is_rejected(
            result,
            RigSubmapAlignmentRejectionReason::NonFinitePose,
            unique,
            Some((RigSubmapInputSide::Target, id)),
            None,
            None,
        )
    } else if let Some(id) = first_failing(source, has_finite_center()) {
        is_rejected(
            result,
            RigSubmapAlignmentRejectionReason::NonFiniteCameraCenter,
            unique,
            Some((RigSubmapInputSide::Source, id)),
            None,
            None,
        )
    } else if let Some(id) = first_failing(target, has_finite_center()) {
        is_rejected(
            result,
            RigSubmapAlignmentRejectionReason::NonFiniteCameraCenter,
            unique,
            Some((RigSubmapInputSide::Target, id)),
            None,
            None,
        )
    } else if seam.len() < config.alignment.required_matches() {
        is_rejected(
            result,
            RigSubmapAlignmentRejectionReason::InsufficientCommonFrames,
            counted,
            None,
            None,
            None,
        )
    } else {
        exists|
            geometry: RotationGeometry,
            sums: Seq<Scalar>,
            consensus: RotationConsensus,
            ratio: Scalar,
        |
            {
                &&& #[trigger] is_seam_consensus(
                    source,
                    target,
                    seam,
                    config,
                    geometry,
                    sums,
                    consensus,
                    ratio,
                    numerics,
                )
                &&& is_consensus_verdict(
                    source_submap_id,
                    target_submap_id,
                    seam,
                    seam_matches(source, target, seam),
                    consensus,
                    ratio,
                    config,
                    counted,
                    numerics,
                    result,
                )
            }
    }
}

proof fn lemma_seam_is_common(
    source: Seq<RigFrame>,
    target: Seq<RigFrame>,
    config: RigSubmapAlignmentConfig,
    sorted: Seq<u64>,
)
    requires
        sorted == sorted_set_of(ids_of(source)),
        strictly_increasing(sorted),
        forall|id: u64| sorted.contains(id) <==> ids_of(source).contains(id),
    ensures
        forall|k: int|
            0 <= k < seam_ids(source, target, config).len() ==> ids_of(source).contains(
                #[trigger] seam_ids(source, target, config)[k],
            ) && ids_of(target).contains(seam_ids(source, target, config)[k]),
{
    let p = is_among(ids_of(target));
    let common = common_ids(source, target);
    let at = lemma_filter_positions(sorted, p);
    assert forall|i: int, j: int| 0 <= i < j < common.len() implies common[i] < common[j] by {
        assert(at[i] < at[j]);
        assert(sorted[at[i]] < sorted[at[j]]);
    }
    boundary_sampling_is_bounded_and_distinct(
        common,
        config.max_boundary_frames as int,
        config.boundary_sampling,
    );
    let seam = seam_ids(source, target, config);
    assert forall|k: int| 0 <= k < seam.len() implies ids_of(source).contains(#[trigger] seam[k])
        && ids_of(target).contains(seam[k]) by {
        assert(seam.contains(seam[k]));
        assert(common.contains(seam[k]));
        let j = common.index_of(seam[k]);
        assert(sorted[at[j]] == seam[k]);
        assert(sorted.contains(seam[k]));
        assert(p(sorted[at[j]]));
    }
}

fn pair_centers(ids: &Vec<u64>, source: &Vec<RigFrame>, target: &Vec<RigFrame>) -> (matches: Vec<
    SubmapPointMatch,
>)
    requires
        source.len() == ids.len(),
        target.len() == ids.len(),
    ensures
        matches@ == Seq::new(
            ids@.len(),
            |k: int| center_match(source[k], target[k], ids[k]),
        ),
{
    let mut matches: Vec<SubmapPointMatch> = Vec::new();
    let mut k: usize = 0;
    while k < ids.len()
        invariant
            k <= ids.len(),
            source.len() == ids.len(),
            target.len() == ids.len(),
            matches.len() == k,
            forall|j: int|
                0 <= j < k ==> #[trigger] matches[j] == center_match(
                    source[j],
                    target[j],
                    ids[j],
                ),
        decreases ids.len() - k,
    {
        matches.push(
            SubmapPointMatch {
                source_landmark_id: ids[k],
                target_landmark_id: ids[k],
                source_point: source[k].camera_center,
                target_point: target[k].camera_center,
            },
        );
        k += 1;
    }
    assert(matches@ =~= Seq::new(
        ids@.len(),
        |k: int| center_match(source[k], target[k], ids[k]),
    ));
    matches
}

fn copy_u64s(ids: &Vec<u64>) -> (copy: Vec<u64>)
    ensures
        copy@ == ids@,
{
    let mut copy: Vec<u64> = Vec::new();
    let mut k: usize = 0;
    while k < ids.len()
        invariant
            k <= ids.len(),
            copy@ == ids@.take(k as int),
        decreases ids.len() - k,
    {
        copy.push(ids[k]);
        k += 1;
    }
    proof {
        lemma_take_all(ids@);
    }
    copy
}

/// Estimates a similarity from source to target out of corresponding rig-frame poses in
/// two independently reconstructed submap gauges.
///
/// Callers should pass the newer submap window as the source and the previous one as the
/// target; the earliest common ids are then the seam of the new window. The unique
/// intersection of the ids is sorted and sampled before any rotation consensus or
/// estimate.
pub fn estimate_rig_submap_sim3_constraint<G, U, D, S, F, M, R, Q>(
    source_submap_id: u64,
    target_submap_id: u64,
    source_frames: &Vec<RigFrame>,
    target_frames: &Vec<RigFrame>,
    config: &RigSubmapAlignmentConfig,
    numerics: &RigNumerics<G, U, D, S, F, M, R, Q>,
) -> (result: Result<RigSubmapAlignmentResult, RigSubmapAlignmentRejection>) where
    G: Fn(&Vec<RigFrame>, &Vec<RigFrame>, Scalar) -> RotationGeometry,
    U: Fn(&Vec<Scalar>) -> Scalar,
    D: Fn(Scalar) -> Scalar,
    S: Fn(&AlignmentTask) -> SceneGeometry,
    F: Fn(&AlignmentTask, &Vec<usize>) -> Option<Sim3Fit>,
    M: Fn(&Vec<Scalar>) -> Scalar,
    R: Fn(usize, usize) -> Scalar,
    Q: Fn(&AlignmentTask, &Sim3Fit, &Vec<usize>, Scalar) -> FitQuality,
    requires
        numerics.callable(),
    ensures
        is_rig_alignment(
            source_submap_id,
            target_submap_id,
            source_frames@,
            target_frames@,
            *config,
            *numerics,
            result,
        ),
{
    let source_len: usize = source_frames.len();
    let target_len: usize = target_frames.len();
    let threshold = config.rotation_consensus_deg;
    if !config.is_valid() {
        return Err(
            input_rejected(
                RigSubmapAlignmentRejectionReason::InvalidConfiguration,
                RigSubmapAlignmentDiagnostics::from_counts(
                    source_len,
                    target_len,
                    0,
                    0,
                    0,
                    Vec::new(),
                    threshold,
                ),
                None,
                None,
            ),
        );
    }
    let source_ids = copy_ids(source_frames);
    let target_ids = copy_ids(target_frames);
    let source_sorted = sorted_set(&source_ids);
    let target_sorted = sorted_set(&target_ids);
    let base = RigSubmapAlignmentDiagnostics::from_counts(
        source_len,
        target_len,
        source_sorted.len(),
        target_sorted.len(),
        0,
        Vec::new(),
        threshold,
    );
    if let Some(id) = duplicate_frame_id(&source_ids) {
        return Err(
            input_rejected(
                RigSubmapAlignmentRejectionReason::DuplicateFrameId,
                base,
                Some(RigSubmapInputSide::Source),
                Some(id),
            ),
        );
    }
    if let Some(id) = duplicate_frame_id(&target_ids) {
        return Err(
            input_rejected(
                RigSubmapAlignmentRejectionReason::DuplicateFrameId,
                base,
                Some(RigSubmapInputSide::Target),
                Some(id),
            ),
        );
    }
    if let Some(id) = first_nonfinite(source_frames, true) {
        return Err(
            input_rejected(
                RigSubmapAlignmentRejectionReason::NonFinitePose,
                base,
                Some(RigSubmapInputSide::Source),
                Some(id),
            ),
        );
    }
    if let Some(id) = first_nonfinite(target_frames, true) {
        return Err(
            input_rejected(
                RigSubmapAlignmentRejectionReason::NonFinitePose,
                base,
                Some(RigSubmapInputSide::Target),
                Some(id),
            ),
        );
    }
    if let Some(id) = first_nonfinite(source_frames, false) {
        return Err(
            input_rejected(
                RigSubmapAlignmentRejectionReason::NonFiniteCameraCenter,
                base,
                Some(RigSubmapInputSide::Source),
                Some(id),
            ),
        );
    }
    if let Some(id) = first_nonfinite(target_frames, false) {
        return Err(
            input_rejected(
                RigSubmapAlignmentRejectionReason::NonFiniteCameraCenter,
                base,
                Some(RigSubmapInputSide::Target),
                Some(id),
            ),
        );
    }
    let common = intersect_ids(&source_sorted, &target_ids);
    let seam = sample_boundary_frame_ids(
        &common,
        config.max_boundary_frames,
        config.boundary_sampling,
    );
    let mut diagnostics = RigSubmapAlignmentDiagnostics::from_counts(
        source_len,
        target_len,
        source_sorted.len(),
        target_sorted.len(),
        common.len(),
        copy_u64s(&seam),
        threshold,
    );
    let ghost counted = diagnostics@;
    let required: usize = if config.alignment.min_correspondences >= 3 {
        config.alignment.min_correspondences
    } else {
        3
    };
    if seam.len() < required {
        return Err(
            input_rejected(
                RigSubmapAlignmentRejectionReason::InsufficientCommonFrames,
                diagnostics,
                None,
                None,
            ),
        );
    }
    proof {
        lemma_seam_is_common(source_frames@, target_frames@, *config, source_sorted@);
        let kept = seam_ids(source_frames@, target_frames@, *config);
        assert(seam@ == kept);
        assert forall|k: int| 0 <= k < seam.len() implies ids_of(source_frames@).contains(
            #[trigger] seam[k],
        ) && ids_of(target_frames@).contains(seam[k]) by {
            assert(seam[k] == kept[k]);
        }
    }
    let source_seam = select_frames(source_frames, &seam);
    let target_seam = select_frames(target_frames, &seam);
    let matches = pair_centers(&seam, &source_seam, &target_seam);
    assert(matches@ =~= seam_matches(source_frames@, target_frames@, seam@));
    diagnostics.camera_centre_match_count = matches.len();
    let geometry = (numerics.rotations)(&source_seam, &target_seam, threshold);
    diagnostics.rotation_candidate_count = geometry.rotations.len();
    let (consensus, Ghost(sums)) = rotation_consensus(&seam, &geometry, numerics);
    let ratio = (numerics.alignment.fraction)(consensus.indices.len(), seam.len());
    assert(is_seam_consensus(
        source_frames@,
        target_frames@,
        seam@,
        *config,
        geometry,
        sums,
        consensus,
        ratio,
        *numerics,
    ));
    diagnostics.rotation_consensus_count = consensus.indices.len();
    diagnostics.rotation_consensus_ratio = ratio;
    diagnostics.rotation_consensus_max_disagreement_deg = consensus.max_disagreement_deg;
    diagnostics.rotation_medoid_frame_id = Some(consensus.medoid_frame_id);
    if !ratio.is_finite() || ratio.lt(config.min_rotation_consensus_ratio) {
        return Err(
            input_rejected(
                RigSubmapAlignmentRejectionReason::LowRotationConsensus,
                diagnostics,
                None,
                None,
            ),
        );
    }
    let result = route_estimators(
        source_submap_id,
        target_submap_id,
        &matches,
        &consensus.rotation,
        config,
        diagnostics,
        &numerics.alignment,
    );
    assert(is_consensus_verdict(
        source_submap_id,
        target_submap_id,
        seam@,
        matches@,
        consensus,
        ratio,
        *config,
        counted,
        *numerics,
        result,
    ));
    result
}

/// The same under a name that stresses the camera centres.
pub fn estimate_rig_submap_camera_centre_constraint<G, U, D, S, F, M, R, Q>(
    source_submap_id: u64,
    target_submap_id: u64,
    source_frames: &Vec<RigFrame>,
    target_frames: &Vec<RigFrame>,
    config: &RigSubmapAlignmentConfig,
    numerics: &RigNumerics<G, U, D, S, F, M, R, Q>,
) -> (result: Result<RigSubmapAlignmentResult, RigSubmapAlignmentRejection>) where
    G: Fn(&Vec<RigFrame>, &Vec<RigFrame>, Scalar) -> RotationGeometry,
    U: Fn(&Vec<Scalar>) -> Scalar,
    D: Fn(Scalar) -> Scalar,
    S: Fn(&AlignmentTask) -> SceneGeometry,
    F: Fn(&AlignmentTask, &Vec<usize>) -> Option<Sim3Fit>,
    M: Fn(&Vec<Scalar>) -> Scalar,
    R: Fn(usize, usize) -> Scalar,
    Q: Fn(&AlignmentTask, &Sim3Fit, &Vec<usize>, Scalar) -> FitQuality,
    requires
        numerics.callable(),
    ensures
        is_rig_alignment(
            source_submap_id,
            target_submap_id,
            source_frames@,
            target_frames@,
            *config,
            *numerics,
            result,
        ),
{
    estimate_rig_submap_sim3_constraint(
        source_submap_id,
        target_submap_id,
        source_frames,
        target_frames,
        config,
        numerics,
    )
}

/// Two lists hold the same frames, in whatever order, each id once and everything finite.
pub open spec fn are_same_frames(left: Seq<RigFrame>, right: Seq<RigFrame>) -> bool {
    &&& left.len() == right.len()
    &&& forall|frame: RigFrame| left.contains(frame) <==> right.contains(frame)
    &&& first_duplicate(ids_of(left)) is None
    &&& first_duplicate(ids_of(right)) is None
    &&& forall|k: int|
        0 <= k < left.len() ==> (#[trigger] left[k]).pose.finite()
            && left[k].camera_center.finite()
}

proof fn lemma_no_duplicate_is_distinct(ids: Seq<u64>)
    requires
        first_duplicate(ids) is None,
    ensures
        forall|i: int, j: int| 0 <= i < j < ids.len() ==> ids[i] != ids[j],
    decreases ids.len(),
{
    if ids.len() > 0 {
        let rest = ids.drop_last();
        lemma_no_duplicate_is_distinct(rest);
        assert forall|i: int, j: int| 0 <= i < j < ids.len() implies ids[i] != ids[j] by {
            assert(rest[i] == ids[i]);
            if j < rest.len() {
                assert(rest[j] == ids[j]);
            } else {
                assert(!rest.contains(ids.last()));
            }
        }
    }
}

proof fn lemma_none_failing(frames: Seq<RigFrame>, p: spec_fn(RigFrame) -> bool)
    requires
        forall|k: int| 0 <= k < frames.len() ==> p(#[trigger] frames[k]),
    ensures
        first_failing(frames, p) is None,
    decreases frames.len(),
{
    if frames.len() > 0 {
        let rest = frames.drop_last();
        assert forall|k: int| 0 <= k < rest.len() implies p(#[trigger] rest[k]) by {
            assert(rest[k] == frames[k]);
        }
        lemma_none_failing(rest, p);
        assert(p(frames[frames.len() - 1]));
    }
}

/// Reordering frames changes neither their ids nor what is found under an id.
proof fn lemma_same_frames(left: Seq<RigFrame>, right: Seq<RigFrame>)
    requires
        are_same_frames(left, right),
    ensures
        forall|id: u64| ids_of(left).contains(id) <==> ids_of(right).contains(id),
        sorted_set_of(ids_of(left)) == sorted_set_of(ids_of(right)),
        forall|id: u64|
            ids_of(left).contains(id) ==> #[trigger] frame_with(left, id) == frame_with(right, id),
        first_failing(left, has_finite_pose()) is None,
        first_failing(right, has_finite_pose()) is None,
        first_failing(left, has_finite_center()) is None,
        first_failing(right, has_finite_center()) is None,
{
    let l = ids_of(left);
    let r = ids_of(right);
    lemma_no_duplicate_is_distinct(l);
    lemma_no_duplicate_is_distinct(r);
    assert forall|id: u64| l.contains(id) <==> r.contains(id) by {
        if l.contains(id) {
            let k = l.index_of(id);
            assert(left.contains(left[k]));
            let j = right.index_of(left[k]);
            assert(r[j] == id);
        }
        if r.contains(id) {
            let k = r.index_of(id);
            assert(right.contains(right[k]));
            let j = left.index_of(right[k]);
            assert(l[j] == id);
        }
    }
    assert(sorted_set_of(l) == sorted_set_of(r)) by {
        lemma_sorted_set_of(l);
        lemma_sorted_set_of(r);
        lemma_increasing_is_unique(sorted_set_of(l), sorted_set_of(r));
    }
    assert forall|id: u64| l.contains(id) implies #[trigger] frame_with(left, id) == frame_with(
        right,
        id,
    ) by {
        let at = l.index_of(id);
        assert(is_frame_at(left, at, id));
        let k = choose|k: int| is_frame_at(left, k, id);
        assert(left.contains(left[k]));
        let j = right.index_of(left[k]);
        assert(is_frame_at(right, j, id));
        let m = choose|m: int| is_frame_at(right, m, id);
        assert(r[j] == id && r[m] == id);
        assert(j == m);
    }
    assert forall|k: int| 0 <= k < right.len() implies (#[trigger] right[k]).pose.finite()
        && right[k].camera_center.finite() by {
        assert(right.contains(right[k]));
        let j = left.index_of(right[k]);
        assert(left[j] == right[k]);
    }
    lemma_none_failing(left, has_finite_pose());
    lemma_none_failing(right, has_finite_pose());
    lemma_none_failing(left, has_finite_center());
    lemma_none_failing(right, has_finite_center());
}

/// Where ids are distinct and everything is finite, reordered frames may be aligned to the
/// same results.
proof fn lemma_reordered_frames<G, U, D, S, F, M, R, Q>(
    source_submap_id: u64,
    target_submap_id: u64,
    source: Seq<RigFrame>,
    target: Seq<RigFrame>,
    other_source: Seq<RigFrame>,
    other_target: Seq<RigFrame>,
    config: RigSubmapAlignmentConfig,
    numerics: RigNumerics<G, U, D, S, F, M, R, Q>,
    result: Result<RigSubmapAlignmentResult, RigSubmapAlignmentRejection>,
) where
    G: Fn(&Vec<RigFrame>, &Vec<RigFrame>, Scalar) -> RotationGeometry,
    U: Fn(&Vec<Scalar>) -> Scalar,
    D: Fn(Scalar) -> Scalar,
    S: Fn(&AlignmentTask) -> SceneGeometry,
    F: Fn(&AlignmentTask, &Vec<usize>) -> Option<Sim3Fit>,
    M: Fn(&Vec<Scalar>) -> Scalar,
    R: Fn(usize, usize) -> Scalar,
    Q: Fn(&AlignmentTask, &Sim3Fit, &Vec<usize>, Scalar) -> FitQuality,

    requires
        are_same_frames(source, other_source),
        are_same_frames(target, other_target),
        is_rig_alignment(
            source_submap_id,
            target_submap_id,
            source,
            target,
            config,
            numerics,
            result,
        ),
    ensures
        is_rig_alignment(
            source_submap_id,
            target_submap_id,
            other_source,
            other_target,
            config,
            numerics,
            result,
        ),
{
    lemma_same_frames(source, other_source);
    lemma_same_frames(target, other_target);
    assert(is_among(ids_of(target)) =~= is_among(ids_of(other_target)));
    let common = common_ids(source, target);
    assert(common == common_ids(other_source, other_target));
    let seam = seam_ids(source, target, config);
    assert(seam == seam_ids(other_source, other_target, config));
    lemma_sorted_set_of(ids_of(source));
    lemma_seam_is_common(source, target, config, sorted_set_of(ids_of(source)));
    assert(frames_with(source, seam) =~= frames_with(other_source, seam));
    assert(frames_with(target, seam) =~= frames_with(other_target, seam));
    let matches = seam_matches(source, target, seam);
    assert(matches =~= seam_matches(other_source, other_target, seam));
    let counted = RigDiagnosticsModel {
        source_unique_frame_count: sorted_set_of(ids_of(source)).len() as int,
        target_unique_frame_count: sorted_set_of(ids_of(target)).len() as int,
        common_frame_count: common.len() as int,
        retained_frame_count: seam.len() as int,
        retained_frame_ids: seam,
        ..counts_only(
            source.len() as int,
            target.len() as int,
            0,
            0,
            0,
            Seq::empty(),
            config.rotation_consensus_deg,
        )
    };
    if config.valid() && seam.len() >= config.alignment.required_matches() {
        let (geometry, sums, consensus, ratio) = choose|
            geometry: RotationGeometry,
            sums: Seq<Scalar>,
            consensus: RotationConsensus,
            ratio: Scalar,
        |
            {
                &&& #[trigger] is_seam_consensus(
                    source,
                    target,
                    seam,
                    config,
                    geometry,
                    sums,
                    consensus,
                    ratio,
                    numerics,
                )
                &&& is_consensus_verdict(
                    source_submap_id,
                    target_submap_id,
                    seam,
                    matches,
                    consensus,
                    ratio,
                    config,
                    counted,
                    numerics,
                    result,
                )
            };
        assert(is_seam_consensus(
            other_source,
            other_target,
            seam,
            config,
            geometry,
            sums,
            consensus,
            ratio,
            numerics,
        ));
    }
}

/// Two geometries are the same.
pub open spec fn geometries_alike(left: RotationGeometry, right: RotationGeometry) -> bool {
    &&& left.rotations@ == right.rotations@
    &&& left.distances.len() == right.distances.len()
    &&& forall|i: int|
        0 <= i < left.distances.len() ==> (#[trigger] left.distances[i])@ == right.distances[i]@
    &&& left.radius == right.radius
}

impl<G, U, D, S, F, M, R, Q> RigNumerics<G, U, D, S, F, M, R, Q> where
    G: Fn(&Vec<RigFrame>, &Vec<RigFrame>, Scalar) -> RotationGeometry,
    U: Fn(&Vec<Scalar>) -> Scalar,
    D: Fn(Scalar) -> Scalar,
    S: Fn(&AlignmentTask) -> SceneGeometry,
    F: Fn(&AlignmentTask, &Vec<usize>) -> Option<Sim3Fit>,
    M: Fn(&Vec<Scalar>) -> Scalar,
    R: Fn(usize, usize) -> Scalar,
    Q: Fn(&AlignmentTask, &Sim3Fit, &Vec<usize>, Scalar) -> FitQuality,
 {
    /// The functions answer the same to the same questions.
    pub open spec fn answers_alike(self) -> bool {
        &&& self.alignment.answers_alike()
        &&& forall|
            a: Vec<RigFrame>,
            b: Vec<RigFrame>,
            c: Vec<RigFrame>,
            d: Vec<RigFrame>,
            radius: Scalar,
            x: RotationGeometry,
            y: RotationGeometry,
        |
            a@ == c@ && b@ == d@ && #[trigger] call_ensures(self.rotations, (&a, &b, radius), x)
                && #[trigger] call_ensures(self.rotations, (&c, &d, radius), y)
                ==> geometries_alike(x, y)
        &&& forall|a: Vec<Scalar>, b: Vec<Scalar>, x: Scalar, y: Scalar|
            a@ == b@ && #[trigger] call_ensures(self.sum, (&a,), x) && #[trigger] call_ensures(
                self.sum,
                (&b,),
                y,
            ) ==> x == y
        &&& forall|angle: Scalar, x: Scalar, y: Scalar| #[trigger]
            call_ensures(self.degrees, (angle,), x) && #[trigger] call_ensures(
                self.degrees,
                (angle,),
                y,
            ) ==> x == y
    }
}

/// Two results are the same.
pub open spec fn rig_results_alike(
    left: Result<RigSubmapAlignmentResult, RigSubmapAlignmentRejection>,
    right: Result<RigSubmapAlignmentResult, RigSubmapAlignmentRejection>,
) -> bool {
    match (left, right) {
        (Ok(a), Ok(b)) => constraints_alike(a.constraint, b.constraint) && a.diagnostics@
            == b.diagnostics@,
        (Err(a), Err(b)) => {
            &&& a.reason == b.reason
            &&& a.diagnostics@ == b.diagnostics@
            &&& a.offending_side == b.offending_side
            &&& a.offending_frame_id == b.offending_frame_id
            &&& a.sim3_rejection == b.sim3_rejection
            &&& a.fallback_rejection == b.fallback_rejection
        },
        _ => false,
    }
}

proof fn lemma_clusters_alike(left: RotationGeometry, right: RotationGeometry, i: int)
    requires
        geometries_alike(left, right),
        0 <= i < left.distances.len(),
    ensures
        cluster_of(left, i) == cluster_of(right, i),
        cluster_distances(left, i) == cluster_distances(right, i),
{
    assert(left.distances[i]@ == right.distances[i]@);
    assert(left.rotations.len() == right.rotations.len());
    assert(cluster_of(left, i) == cluster_of(right, i));
    assert(cluster_distances(left, i) =~= cluster_distances(right, i)) by {
        assert forall|k: int| 0 <= k < cluster_of(left, i).len() implies #[trigger] cluster_distances(
            left,
            i,
        )[k] == cluster_distances(right, i)[k] by {
            let j = cluster_of(left, i)[k] as int;
            assert(left.distances[i]@[j] == right.distances[i]@[j]);
        }
    }
}

proof fn lemma_medoids_alike(
    left: RotationGeometry,
    right: RotationGeometry,
    frame_ids: Seq<u64>,
    sums: Seq<Scalar>,
    n: nat,
)
    requires
        geometries_alike(left, right),
        n <= left.distances.len(),
    ensures
        best_medoid(left, frame_ids, sums, n) == best_medoid(right, frame_ids, sums, n),
    decreases n,
{
    if n > 0 {
        lemma_medoids_alike(left, right, frame_ids, sums, (n - 1) as nat);
        lemma_clusters_alike(left, right, n - 1);
    }
}

/// Two consensuses of the same rotations are the same.
proof fn lemma_consensuses_alike<G, U, D, S, F, M, R, Q>(
    left_geometry: RotationGeometry,
    right_geometry: RotationGeometry,
    frame_ids: Seq<u64>,
    left_sums: Seq<Scalar>,
    right_sums: Seq<Scalar>,
    left: RotationConsensus,
    right: RotationConsensus,
    numerics: RigNumerics<G, U, D, S, F, M, R, Q>,
) where
    G: Fn(&Vec<RigFrame>, &Vec<RigFrame>, Scalar) -> RotationGeometry,
    U: Fn(&Vec<Scalar>) -> Scalar,
    D: Fn(Scalar) -> Scalar,
    S: Fn(&AlignmentTask) -> SceneGeometry,
    F: Fn(&AlignmentTask, &Vec<usize>) -> Option<Sim3Fit>,
    M: Fn(&Vec<Scalar>) -> Scalar,
    R: Fn(usize, usize) -> Scalar,
    Q: Fn(&AlignmentTask, &Sim3Fit, &Vec<usize>, Scalar) -> FitQuality,

    requires
        numerics.answers_alike(),
        geometries_alike(left_geometry, right_geometry),
        left_geometry.covers(frame_ids.len()),
        frame_ids.len() > 0,
        is_consensus(left, left_geometry, frame_ids, left_sums, numerics),
        is_consensus(right, right_geometry, frame_ids, right_sums, numerics),
    ensures
        left.rotation == right.rotation,
        left.medoid_frame_id == right.medoid_frame_id,
        left.indices@ == right.indices@,
        left.max_disagreement_deg == right.max_disagreement_deg,
{
    let n = frame_ids.len();
    assert forall|i: int| 0 <= i < n implies #[trigger] left_sums[i] == right_sums[i] by {
        lemma_clusters_alike(left_geometry, right_geometry, i);
        let values = cluster_distances(left_geometry, i);
        assert(numerics.sums(values, left_sums[i]));
        assert(numerics.sums(values, right_sums[i]));
        let a = choose|list: Vec<Scalar>| list@ == values && #[trigger]
            call_ensures(numerics.sum, (&list,), left_sums[i]);
        let b = choose|list: Vec<Scalar>| list@ == values && #[trigger]
            call_ensures(numerics.sum, (&list,), right_sums[i]);
    }
    assert(left_sums =~= right_sums);
    lemma_medoids_alike(left_geometry, right_geometry, frame_ids, left_sums, n);
    lemma_best_medoid(left_geometry, frame_ids, left_sums, n);
    let best = best_medoid(left_geometry, frame_ids, left_sums, n);
    lemma_clusters_alike(left_geometry, right_geometry, best.index);
    assert(left_geometry.rotations@[best.index] == right_geometry.rotations@[best.index]);
    let indices = consensus_indices(left_geometry, best);
    let l = indices.map_values(|j: usize| left_geometry.distances[best.index][j as int]);
    let r = indices.map_values(|j: usize| right_geometry.distances[best.index][j as int]);
    assert forall|k: int| 0 <= k < indices.len() implies #[trigger] l[k] == r[k] by {
        let j = indices[k] as int;
        assert(left_geometry.distances[best.index]@[j]
            == right_geometry.distances[best.index]@[j]);
    }
    assert(l =~= r);
}

proof fn lemma_fixed_alike<S, F, M, R, Q>(
    left: AlignmentTask,
    right: AlignmentTask,
    numerics: AlignmentNumerics<S, F, M, R, Q>,
    left_result: Result<SubmapSim3Constraint, SubmapSim3Rejection>,
    right_result: Result<SubmapSim3Constraint, SubmapSim3Rejection>,
) where
    S: Fn(&AlignmentTask) -> SceneGeometry,
    F: Fn(&AlignmentTask, &Vec<usize>) -> Option<Sim3Fit>,
    M: Fn(&Vec<Scalar>) -> Scalar,
    R: Fn(usize, usize) -> Scalar,
    Q: Fn(&AlignmentTask, &Sim3Fit, &Vec<usize>, Scalar) -> FitQuality,

    requires
        numerics.answers_alike(),
        generator_repeats(),
        tasks_alike(left, right),
        is_fixed_rotation_alignment(left, numerics, left_result),
        is_fixed_rotation_alignment(right, numerics, right_result),
    ensures
        results_alike(left_result, right_result),
{
    if left.kind is UnitScale {
        let l = choose|samples: Seq<Vec<usize>>|
            are_single_samples(samples, left.matches@) && #[trigger] is_alignment(
                left,
                samples,
                numerics,
                left_result,
            );
        let r = choose|samples: Seq<Vec<usize>>|
            are_single_samples(samples, right.matches@) && #[trigger] is_alignment(
                right,
                samples,
                numerics,
                right_result,
            );
        assert forall|k: int| 0 <= k < l.len() implies (#[trigger] l[k])@ == r[k]@ by {
            assert(r[k]@ == l[k]@);
        }
        alignments_repeat(left, right, l, r, numerics, left_result, right_result);
    } else {
        random_alignments_repeat(left, right, 2, numerics, left_result, right_result);
    }
}

proof fn lemma_routes_alike<S, F, M, R, Q>(
    source_submap_id: u64,
    target_submap_id: u64,
    left: Vec<SubmapPointMatch>,
    right: Vec<SubmapPointMatch>,
    rotation: Quaternion,
    config: RigSubmapAlignmentConfig,
    base: RigDiagnosticsModel,
    left_generic: Result<SubmapSim3Constraint, SubmapSim3Rejection>,
    left_fixed: Result<SubmapSim3Constraint, SubmapSim3Rejection>,
    right_generic: Result<SubmapSim3Constraint, SubmapSim3Rejection>,
    right_fixed: Result<SubmapSim3Constraint, SubmapSim3Rejection>,
    numerics: AlignmentNumerics<S, F, M, R, Q>,
    left_result: Result<RigSubmapAlignmentResult, RigSubmapAlignmentRejection>,
    right_result: Result<RigSubmapAlignmentResult, RigSubmapAlignmentRejection>,
) where
    S: Fn(&AlignmentTask) -> SceneGeometry,
    F: Fn(&AlignmentTask, &Vec<usize>) -> Option<Sim3Fit>,
    M: Fn(&Vec<Scalar>) -> Scalar,
    R: Fn(usize, usize) -> Scalar,
    Q: Fn(&AlignmentTask, &Sim3Fit, &Vec<usize>, Scalar) -> FitQuality,

    requires
        numerics.answers_alike(),
        generator_repeats(),
        left@ == right@,
        is_routed(
            source_submap_id,
            target_submap_id,
            left,
            rotation,
            config,
            base,
            left_generic,
            left_fixed,
            numerics,
            left_result,
        ),
        is_routed(
            source_submap_id,
            target_submap_id,
            right,
            rotation,
            config,
            base,
            right_generic,
            right_fixed,
            numerics,
            right_result,
        ),
    ensures
        rig_results_alike(left_result, right_result),
{
    let left_task = AlignmentTask {
        kind: fixed_kind(config.force_fixed_rotation_unit_scale),
        source_submap_id,
        target_submap_id,
        matches: &left,
        rotation,
        config: config.alignment,
    };
    let right_task = AlignmentTask { matches: &right, ..left_task };
    let left_generic_task = AlignmentTask { kind: AlignmentKind::Generic, ..left_task };
    let right_generic_task = AlignmentTask { kind: AlignmentKind::Generic, ..right_task };
    if config.prefer_fixed_rotation_alignment {
        lemma_fixed_alike(left_task, right_task, numerics, left_fixed, right_fixed);
        if left_fixed is Err && config.allow_generic_fallback_after_fixed_rotation {
            random_alignments_repeat(
                left_generic_task,
                right_generic_task,
                3,
                numerics,
                left_generic,
                right_generic,
            );
        }
    } else {
        random_alignments_repeat(
            left_generic_task,
            right_generic_task,
            3,
            numerics,
            left_generic,
            right_generic,
        );
        if left_generic is Err && config.allow_fixed_rotation_fallback {
            lemma_fixed_alike(left_task, right_task, numerics, left_fixed, right_fixed);
        }
    }
}

/// Two alignments of the same frames have the same result.
proof fn lemma_rig_alignments_repeat<G, U, D, S, F, M, R, Q>(
    source_submap_id: u64,
    target_submap_id: u64,
    source: Seq<RigFrame>,
    target: Seq<RigFrame>,
    config: RigSubmapAlignmentConfig,
    numerics: RigNumerics<G, U, D, S, F, M, R, Q>,
    left: Result<RigSubmapAlignmentResult, RigSubmapAlignmentRejection>,
    right: Result<RigSubmapAlignmentResult, RigSubmapAlignmentRejection>,
) where
    G: Fn(&Vec<RigFrame>, &Vec<RigFrame>, Scalar) -> RotationGeometry,
    U: Fn(&Vec<Scalar>) -> Scalar,
    D: Fn(Scalar) -> Scalar,
    S: Fn(&AlignmentTask) -> SceneGeometry,
    F: Fn(&AlignmentTask, &Vec<usize>) -> Option<Sim3Fit>,
    M: Fn(&Vec<Scalar>) -> Scalar,
    R: Fn(usize, usize) -> Scalar,
    Q: Fn(&AlignmentTask, &Sim3Fit, &Vec<usize>, Scalar) -> FitQuality,

    requires
        numerics.callable(),
        numerics.answers_alike(),
        generator_repeats(),
        is_rig_alignment(
            source_submap_id,
            target_submap_id,
            source,
            target,
            config,
            numerics,
            left,
        ),
        is_rig_alignment(
            source_submap_id,
            target_submap_id,
            source,
            target,
            config,
            numerics,
            right,
        ),
    ensures
        rig_results_alike(left, right),
{
    let seam = seam_ids(source, target, config);
    let matches = seam_matches(source, target, seam);
    let counted = RigDiagnosticsModel {
        source_unique_frame_count: sorted_set_of(ids_of(source)).len() as int,
        target_unique_frame_count: sorted_set_of(ids_of(target)).len() as int,
        common_frame_count: common_ids(source, target).len() as int,
        retained_frame_count: seam.len() as int,
        retained_frame_ids: seam,
        ..counts_only(
            source.len() as int,
            target.len() as int,
            0,
            0,
            0,
            Seq::empty(),
            config.rotation_consensus_deg,
        )
    };
    if config.valid() && first_duplicate(ids_of(source)) is None && first_duplicate(
        ids_of(target),
    ) is None && first_failing(source, has_finite_pose()) is None && first_failing(
        target,
        has_finite_pose(),
    ) is None && first_failing(source, has_finite_center()) is None && first_failing(
        target,
        has_finite_center(),
    ) is None && seam.len() >= config.alignment.required_matches() {
        let (left_geometry, left_sums, left_consensus, left_ratio) = choose|
            geometry: RotationGeometry,
            sums: Seq<Scalar>,
            consensus: RotationConsensus,
            ratio: Scalar,
        |
            {
                &&& #[trigger] is_seam_consensus(
                    source,
                    target,
                    seam,
                    config,
                    geometry,
                    sums,
                    consensus,
                    ratio,
                    numerics,
                )
                &&& is_consensus_verdict(
                    source_submap_id,
                    target_submap_id,
                    seam,
                    matches,
                    consensus,
                    ratio,
                    config,
                    counted,
                    numerics,
                    left,
                )
            };
        let (right_geometry, right_sums, right_consensus, right_ratio) = choose|
            geometry: RotationGeometry,
            sums: Seq<Scalar>,
            consensus: RotationConsensus,
            ratio: Scalar,
        |
            {
                &&& #[trigger] is_seam_consensus(
                    source,
                    target,
                    seam,
                    config,
                    geometry,
                    sums,
                    consensus,
                    ratio,
                    numerics,
                )
                &&& is_consensus_verdict(
                    source_submap_id,
                    target_submap_id,
                    seam,
                    matches,
                    consensus,
                    ratio,
                    config,
                    counted,
                    numerics,
                    right,
                )
            };
        lemma_seam_consensuses_alike(
            source,
            target,
            seam,
            config,
            left_geometry,
            left_sums,
            left_consensus,
            left_ratio,
            right_geometry,
            right_sums,
            right_consensus,
            right_ratio,
            numerics,
        );
        lemma_verdicts_alike(
            source_submap_id,
            target_submap_id,
            seam,
            matches,
            left_consensus,
            right_consensus,
            left_ratio,
            config,
            counted,
            numerics,
            left,
            right,
        );
    }
}

proof fn lemma_seam_consensuses_alike<G, U, D, S, F, M, R, Q>(
    source: Seq<RigFrame>,
    target: Seq<RigFrame>,
    seam: Seq<u64>,
    config: RigSubmapAlignmentConfig,
    left_geometry: RotationGeometry,
    left_sums: Seq<Scalar>,
    left: RotationConsensus,
    left_ratio: Scalar,
    right_geometry: RotationGeometry,
    right_sums: Seq<Scalar>,
    right: RotationConsensus,
    right_ratio: Scalar,
    numerics: RigNumerics<G, U, D, S, F, M, R, Q>,
) where
    G: Fn(&Vec<RigFrame>, &Vec<RigFrame>, Scalar) -> RotationGeometry,
    U: Fn(&Vec<Scalar>) -> Scalar,
    D: Fn(Scalar) -> Scalar,
    S: Fn(&AlignmentTask) -> SceneGeometry,
    F: Fn(&AlignmentTask, &Vec<usize>) -> Option<Sim3Fit>,
    M: Fn(&Vec<Scalar>) -> Scalar,
    R: Fn(usize, usize) -> Scalar,
    Q: Fn(&AlignmentTask, &Sim3Fit, &Vec<usize>, Scalar) -> FitQuality,

    requires
        numerics.callable(),
        numerics.answers_alike(),
        seam.len() > 0,
        is_seam_consensus(
            source,
            target,
            seam,
            config,
            left_geometry,
            left_sums,
            left,
            left_ratio,
            numerics,
        ),
        is_seam_consensus(
            source,
            target,
            seam,
            config,
            right_geometry,
            right_sums,
            right,
            right_ratio,
            numerics,
        ),
    ensures
        left.rotation == right.rotation,
        left.medoid_frame_id == right.medoid_frame_id,
        left.indices@ == right.indices@,
        left.max_disagreement_deg == right.max_disagreement_deg,
        left_ratio == right_ratio,
{
    let (a, b) = choose|source_seam: Vec<RigFrame>, target_seam: Vec<RigFrame>|
        source_seam@ == frames_with(source, seam) && target_seam@ == frames_with(target, seam)
            && #[trigger] call_ensures(
            numerics.rotations,
            (&source_seam, &target_seam, config.rotation_consensus_deg),
            left_geometry,
        );
    let (c, d) = choose|source_seam: Vec<RigFrame>, target_seam: Vec<RigFrame>|
        source_seam@ == frames_with(source, seam) && target_seam@ == frames_with(target, seam)
            && #[trigger] call_ensures(
            numerics.rotations,
            (&source_seam, &target_seam, config.rotation_consensus_deg),
            right_geometry,
        );
    assert(a.len() == seam.len());
    lemma_consensuses_alike(
        left_geometry,
        right_geometry,
        seam,
        left_sums,
        right_sums,
        left,
        right,
        numerics,
    );
    assert(left.indices.len() == right.indices.len());
}

proof fn lemma_verdicts_alike<G, U, D, S, F, M, R, Q>(
    source_submap_id: u64,
    target_submap_id: u64,
    seam: Seq<u64>,
    matches: Seq<SubmapPointMatch>,
    left_consensus: RotationConsensus,
    right_consensus: RotationConsensus,
    ratio: Scalar,
    config: RigSubmapAlignmentConfig,
    counted: RigDiagnosticsModel,
    numerics: RigNumerics<G, U, D, S, F, M, R, Q>,
    left: Result<RigSubmapAlignmentResult, RigSubmapAlignmentRejection>,
    right: Result<RigSubmapAlignmentResult, RigSubmapAlignmentRejection>,
) where
    G: Fn(&Vec<RigFrame>, &Vec<RigFrame>, Scalar) -> RotationGeometry,
    U: Fn(&Vec<Scalar>) -> Scalar,
    D: Fn(Scalar) -> Scalar,
    S: Fn(&AlignmentTask) -> SceneGeometry,
    F: Fn(&AlignmentTask, &Vec<usize>) -> Option<Sim3Fit>,
    M: Fn(&Vec<Scalar>) -> Scalar,
    R: Fn(usize, usize) -> Scalar,
    Q: Fn(&AlignmentTask, &Sim3Fit, &Vec<usize>, Scalar) -> FitQuality,

    requires
        numerics.answers_alike(),
        generator_repeats(),
        left_consensus.rotation == right_consensus.rotation,
        left_consensus.medoid_frame_id == right_consensus.medoid_frame_id,
        left_consensus.indices@ == right_consensus.indices@,
        left_consensus.max_disagreement_deg == right_consensus.max_disagreement_deg,
        is_consensus_verdict(
            source_submap_id,
            target_submap_id,
            seam,
            matches,
            left_consensus,
            ratio,
            config,
            counted,
            numerics,
            left,
        ),
        is_consensus_verdict(
            source_submap_id,
            target_submap_id,
            seam,
            matches,
            right_consensus,
            ratio,
            config,
            counted,
            numerics,
            right,
        ),
    ensures
        rig_results_alike(left, right),
{
    assert(left_consensus.indices.len() == right_consensus.indices.len());
    if ratio.is_finite() && !ratio.lt(config.min_rotation_consensus_ratio) {
        let diagnostics = RigDiagnosticsModel {
            camera_centre_match_count: seam.len() as int,
            rotation_candidate_count: seam.len() as int,
            rotation_consensus_count: left_consensus.indices.len() as int,
            rotation_consensus_ratio: ratio,
            rotation_consensus_max_disagreement_deg: left_consensus.max_disagreement_deg,
            rotation_medoid_frame_id: Some(left_consensus.medoid_frame_id),
            ..counted
        };
        let (l, left_generic, left_fixed) = choose|
            list: Vec<SubmapPointMatch>,
            generic: Result<SubmapSim3Constraint, SubmapSim3Rejection>,
            fixed: Result<SubmapSim3Constraint, SubmapSim3Rejection>,
        |
            list@ == matches && #[trigger] is_routed(
                source_submap_id,
                target_submap_id,
                list,
                left_consensus.rotation,
                config,
                diagnostics,
                generic,
                fixed,
                numerics.alignment,
                left,
            );
        let (r, right_generic, right_fixed) = choose|
            list: Vec<SubmapPointMatch>,
            generic: Result<SubmapSim3Constraint, SubmapSim3Rejection>,
            fixed: Result<SubmapSim3Constraint, SubmapSim3Rejection>,
        |
            list@ == matches && #[trigger] is_routed(
                source_submap_id,
                target_submap_id,
                list,
                left_consensus.rotation,
                config,
                diagnostics,
                generic,
                fixed,
                numerics.alignment,
                right,
            );
        lemma_routes_alike(
            source_submap_id,
            target_submap_id,
            l,
            r,
            left_consensus.rotation,
            config,
            diagnostics,
            left_generic,
            left_fixed,
            right_generic,
            right_fixed,
            numerics.alignment,
            left,
            right,
        );
    }
}

/// The diagnostics of a result.
pub open spec fn diagnostics_of(
    result: Result<RigSubmapAlignmentResult, RigSubmapAlignmentRejection>,
) -> RigDiagnosticsModel {
    match result {
        Ok(admitted) => admitted.diagnostics@,
        Err(rejection) => rejection.diagnostics@,
    }
}

/// The order of the frames does not matter. Where ids are distinct and everything is finite,
/// reordered frames are aligned to the same result, constraint, rejection and diagnostics,
/// provided that the arithmetic answers the same to the same questions and the generator
/// repeats itself. The ids that are retained are the configured sampling of the common ids:
/// increasing, and no more than the boundary allows. Without distinct ids and finite frames
/// a rejection names the first offending frame, which depends on the order.
pub proof fn rig_alignment_ignores_frame_order<G, U, D, S, F, M, R, Q>(
    source_submap_id: u64,
    target_submap_id: u64,
    source: Seq<RigFrame>,
    target: Seq<RigFrame>,
    other_source: Seq<RigFrame>,
    other_target: Seq<RigFrame>,
    config: RigSubmapAlignmentConfig,
    numerics: RigNumerics<G, U, D, S, F, M, R, Q>,
    result: Result<RigSubmapAlignmentResult, RigSubmapAlignmentRejection>,
    other_result: Result<RigSubmapAlignmentResult, RigSubmapAlignmentRejection>,
) where
    G: Fn(&Vec<RigFrame>, &Vec<RigFrame>, Scalar) -> RotationGeometry,
    U: Fn(&Vec<Scalar>) -> Scalar,
    D: Fn(Scalar) -> Scalar,
    S: Fn(&AlignmentTask) -> SceneGeometry,
    F: Fn(&AlignmentTask, &Vec<usize>) -> Option<Sim3Fit>,
    M: Fn(&Vec<Scalar>) -> Scalar,
    R: Fn(usize, usize) -> Scalar,
    Q: Fn(&AlignmentTask, &Sim3Fit, &Vec<usize>, Scalar) -> FitQuality,

    requires
        numerics.callable(),
        numerics.answers_alike(),
        generator_repeats(),
        are_same_frames(source, other_source),
        are_same_frames(target, other_target),
        is_rig_alignment(
            source_submap_id,
            target_submap_id,
            source,
            target,
            config,
            numerics,
            result,
        ),
        is_rig_alignment(
            source_submap_id,
            target_submap_id,
            other_source,
            other_target,
            config,
            numerics,
            other_result,
        ),
    ensures
        rig_results_alike(result, other_result),
        config.valid() ==> {
            let retained = diagnostics_of(result).retained_frame_ids;
            &&& retained == sampled(
                common_ids(source, target),
                config.max_boundary_frames as int,
                config.boundary_sampling,
            )
            &&& strictly_increasing(common_ids(source, target))
            &&& strictly_increasing(retained)
            &&& retained.len() <= config.max_boundary_frames
        },
{
    lemma_reordered_frames(
        source_submap_id,
        target_submap_id,
        source,
        target,
        other_source,
        other_target,
        config,
        numerics,
        result,
    );
    lemma_rig_alignments_repeat(
        source_submap_id,
        target_submap_id,
        other_source,
        other_target,
        config,
        numerics,
        result,
        other_result,
    );
    if config.valid() {
        lemma_same_frames(source, other_source);
        lemma_same_frames(target, other_target);
        lemma_sorted_set_of(ids_of(source));
        let sorted = sorted_set_of(ids_of(source));
        let common = common_ids(source, target);
        let at = lemma_filter_positions(sorted, is_among(ids_of(target)));
        assert forall|i: int, j: int| 0 <= i < j < common.len() implies common[i] < common[j] by {
            assert(at[i] < at[j]);
            assert(sorted[at[i]] < sorted[at[j]]);
        }
        boundary_sampling_is_bounded_and_distinct(
            common,
            config.max_boundary_frames as int,
            config.boundary_sampling,
        );
        lemma_retained_is_the_seam(
            source_submap_id,
            target_submap_id,
            source,
            target,
            config,
            numerics,
            result,
        );
    }
}

/// Past the checks of the inputs, the seam is what is retained.
proof fn lemma_retained_is_the_seam<G, U, D, S, F, M, R, Q>(
    source_submap_id: u64,
    target_submap_id: u64,
    source: Seq<RigFrame>,
    target: Seq<RigFrame>,
    config: RigSubmapAlignmentConfig,
    numerics: RigNumerics<G, U, D, S, F, M, R, Q>,
    result: Result<RigSubmapAlignmentResult, RigSubmapAlignmentRejection>,
) where
    G: Fn(&Vec<RigFrame>, &Vec<RigFrame>, Scalar) -> RotationGeometry,
    U: Fn(&Vec<Scalar>) -> Scalar,
    D: Fn(Scalar) -> Scalar,
    S: Fn(&AlignmentTask) -> SceneGeometry,
    F: Fn(&AlignmentTask, &Vec<usize>) -> Option<Sim3Fit>,
    M: Fn(&Vec<Scalar>) -> Scalar,
    R: Fn(usize, usize) -> Scalar,
    Q: Fn(&AlignmentTask, &Sim3Fit, &Vec<usize>, Scalar) -> FitQuality,

    requires
        config.valid(),
        first_duplicate(ids_of(source)) is None,
        first_duplicate(ids_of(target)) is None,
        first_failing(source, has_finite_pose()) is None,
        first_failing(target, has_finite_pose()) is None,
        first_failing(source, has_finite_center()) is None,
        first_failing(target, has_finite_center()) is None,
        is_rig_alignment(
            source_submap_id,
            target_submap_id,
            source,
            target,
            config,
            numerics,
            result,
        ),
    ensures
        diagnostics_of(result).retained_frame_ids == seam_ids(source, target, config),
{
}

/// A configuration is valid where some frames may be kept, the angle is positive and at most
/// half a turn, and the ratio is positive and at most one.
pub proof fn valid_configurations_are_in_range(config: RigSubmapAlignmentConfig)
    ensures
        config.valid() <==> {
            &&& config.max_boundary_frames >= 1
            &&& config.rotation_consensus_deg.is_finite()
            &&& !config.rotation_consensus_deg.le(Scalar::zero())
            &&& !(Scalar { bits: 0x4066_8000_0000_0000 }).lt(config.rotation_consensus_deg)
            &&& config.min_rotation_consensus_ratio.is_finite()
            &&& !config.min_rotation_consensus_ratio.le(Scalar::zero())
            &&& !Scalar::one().lt(config.min_rotation_consensus_ratio)
        },
{
}

/// As many frames are kept as there are, or as are allowed. The earliest policy keeps the
/// first ones; the uniform policy spreads them evenly over the overlap.
pub proof fn sampling_keeps_as_many_as_allowed(
    common: Seq<u64>,
    maximum: int,
    sampling: RigSubmapBoundarySampling,
    i: int,
)
    requires
        maximum >= 0,
        0 <= i < sampled(common, maximum, sampling).len(),
    ensures
        sampled(common, maximum, sampling).len() == if common.len() <= maximum {
            common.len() as int
        } else {
            maximum
        },
        common.len() <= maximum || sampling is Earliest ==> sampled(common, maximum, sampling)[i]
            == common[i],
        common.len() > maximum >= 2 && sampling is UniformAcrossOverlap ==> sampled(
            common,
            maximum,
            sampling,
        )[i] == common[i * (common.len() - 1) / (maximum - 1)],
        maximum == 1 ==> sampled(common, maximum, sampling)[i] == common[0],
{
}

/// How many rotations lie within the radius of the one at `i`.
pub open spec fn close_count(geometry: RotationGeometry, i: int) -> nat {
    count_where(
        geometry.rotations@.len(),
        |j: int| geometry.distances[i]@[j].le(geometry.radius),
    )
}

proof fn lemma_cluster(geometry: RotationGeometry, i: int, j: usize)
    ensures
        cluster_of(geometry, i).len() == close_count(geometry, i),
        cluster_of(geometry, i).contains(j) <==> j < geometry.rotations@.len()
            && geometry.distances[i]@[j as int].le(geometry.radius),
{
    let n = geometry.rotations@.len();
    let p = is_close(geometry.distances[i]@, geometry.radius);
    assert(geometry.rotations.len() == n);
    lemma_indices_where(n, p);
    crate::sequences::lemma_count_same(
        n,
        p,
        |k: int| geometry.distances[i]@[k].le(geometry.radius),
    );
    let found = cluster_of(geometry, i);
    if found.contains(j) {
        assert(p(found[found.index_of(j)] as int));
    }
    if j < n && p(j as int) {
        assert(found.contains(j));
    }
}

proof fn lemma_medoid_is_best(
    geometry: RotationGeometry,
    frame_ids: Seq<u64>,
    sums: Seq<Scalar>,
    n: nat,
    i: int,
)
    requires
        0 <= i < n,
    ensures
        0 <= best_medoid(geometry, frame_ids, sums, n).index < n,
        cluster_of(geometry, i).len() <= best_medoid(geometry, frame_ids, sums, n).support,
        ({
            let best = best_medoid(geometry, frame_ids, sums, n);
            cluster_of(geometry, i).len() == best.support ==> !sums[i].lt(best.sum)
        }),
        ({
            let best = best_medoid(geometry, frame_ids, sums, n);
            cluster_of(geometry, i).len() == best.support && sums[i].le(best.sum) && best.sum.le(
                sums[i],
            ) ==> frame_ids[best.index] <= frame_ids[i]
        }),
        ({
            let best = best_medoid(geometry, frame_ids, sums, n);
            best.support > 0 ==> best.support == cluster_of(geometry, best.index).len() && best.sum
                == sums[best.index]
        }),
    decreases n,
{
    let m = (n - 1) as nat;
    if m > 0 {
        lemma_medoid_is_best(geometry, frame_ids, sums, m, if i < m {
            i
        } else {
            0
        });
    } else {
        assert(best_medoid(geometry, frame_ids, sums, 0).index == 0);
    }
}

/// The consensus: no rotation has more rotations within the radius than the medoid; none with
/// as many has a smaller sum of distances; and none that agrees in both has a smaller frame
/// id. The consensus are the rotations within the radius of the medoid, and its disagreement
/// is the largest of their distances.
pub proof fn the_medoid_has_the_largest_cluster<G, U, D, S, F, M, R, Q>(
    consensus: RotationConsensus,
    geometry: RotationGeometry,
    frame_ids: Seq<u64>,
    sums: Seq<Scalar>,
    numerics: RigNumerics<G, U, D, S, F, M, R, Q>,
    i: int,
    j: usize,
) -> (found: (int, Scalar)) where
    G: Fn(&Vec<RigFrame>, &Vec<RigFrame>, Scalar) -> RotationGeometry,
    U: Fn(&Vec<Scalar>) -> Scalar,
    D: Fn(Scalar) -> Scalar,
    S: Fn(&AlignmentTask) -> SceneGeometry,
    F: Fn(&AlignmentTask, &Vec<usize>) -> Option<Sim3Fit>,
    M: Fn(&Vec<Scalar>) -> Scalar,
    R: Fn(usize, usize) -> Scalar,
    Q: Fn(&AlignmentTask, &Sim3Fit, &Vec<usize>, Scalar) -> FitQuality,

    requires
        is_consensus(consensus, geometry, frame_ids, sums, numerics),
        geometry.covers(frame_ids.len()),
        0 <= i < frame_ids.len(),
    ensures
        0 <= found.0 < frame_ids.len(),
        consensus.medoid_frame_id == frame_ids[found.0],
        consensus.rotation == geometry.rotations@[found.0],
        close_count(geometry, i) <= close_count(geometry, found.0) || close_count(geometry, i) == 0,
        close_count(geometry, i) > 0 ==> consensus.indices@.len() == close_count(
            geometry,
            found.0,
        ),
        close_count(geometry, i) > 0 && close_count(geometry, i) == close_count(geometry, found.0)
            ==> !sums[i].lt(sums[found.0]) && (sums[i].le(sums[found.0]) && sums[found.0].le(
            sums[i],
        ) ==> frame_ids[found.0] <= frame_ids[i]),
        close_count(geometry, i) > 0 ==> (consensus.indices@.contains(j) <==> j < frame_ids.len()
            && geometry.distances[found.0]@[j as int].le(geometry.radius)),
        call_ensures(numerics.degrees, (found.1,), consensus.max_disagreement_deg),
        forall|k: int|
            0 <= k < consensus.indices@.len() && !geometry.distances[found.0]@[(
            #[trigger] consensus.indices@[k]) as int].is_nan()
                ==> geometry.distances[found.0]@[consensus.indices@[k] as int].le(found.1),
{
    let n = frame_ids.len();
    let best = best_medoid(geometry, frame_ids, sums, n);
    lemma_medoid_is_best(geometry, frame_ids, sums, n, i);
    lemma_cluster(geometry, i, 0);
    lemma_cluster(geometry, best.index, j);
    let indices = consensus_indices(geometry, best);
    let distances = indices.map_values(|j: usize| geometry.distances[best.index][j as int]);
    let spread = largest(distances);
    assert forall|k: int|
        0 <= k < consensus.indices@.len() && !geometry.distances[best.index]@[(
        #[trigger] consensus.indices@[k]) as int].is_nan() implies geometry.distances[best.index]@[
    consensus.indices@[k] as int].le(spread) by {
        crate::scalar::largest_bounds_all(distances, k);
    }
    (best.index, spread)
}

/// A duplicate is found exactly where an id occurs twice, and it is the id that is repeated
/// first.
pub proof fn duplicates_occur_twice(ids: Seq<u64>)
    ensures
        first_duplicate(ids) is None <==> forall|i: int, j: int|
            #![trigger ids[i], ids[j]]
            0 <= i < j < ids.len() ==> ids[i] != ids[j],
        first_duplicate(ids) matches Some(id) ==> exists|j: int|
            0 <= j < ids.len() && #[trigger] ids[j] == id && ids.take(j).contains(id)
                && first_duplicate(ids.take(j)) is None,
    decreases ids.len(),
{
    if ids.len() > 0 {
        let rest = ids.drop_last();
        let n = rest.len() as int;
        duplicates_occur_twice(rest);
        assert forall|i: int| 0 <= i < n implies #[trigger] ids[i] == rest[i] by {}
        if first_duplicate(rest) is Some {
            let id = first_duplicate(rest)->0;
            let j = choose|j: int|
                0 <= j < rest.len() && #[trigger] rest[j] == id && rest.take(j).contains(id)
                    && first_duplicate(rest.take(j)) is None;
            assert(rest.take(j) =~= ids.take(j));
            assert(ids[j] == id);
            let i = ids.take(j).index_of(id);
            assert(ids[i] == ids[j]);
        } else {
            assert(ids.take(n) =~= rest);
            if rest.contains(ids[n]) {
                let i = rest.index_of(ids[n]);
                assert(ids[i] == ids[n]);
            } else {
                assert forall|i: int, j: int|
                    #![trigger ids[i], ids[j]]
                    0 <= i < j < ids.len() implies ids[i] != ids[j] by {
                    if j < n {
                        assert(rest[i] != rest[j]);
                    } else {
                        assert(rest.contains(rest[i]));
                    }
                }
            }
        }
    }
}

proof fn lemma_first_failing(frames: Seq<RigFrame>, p: spec_fn(RigFrame) -> bool) -> (k: int)
    ensures
        first_failing(frames, p) is None <==> forall|i: int|
            0 <= i < frames.len() ==> p(#[trigger] frames[i]),
        first_failing(frames, p) matches Some(id) ==> 0 <= k < frames.len() && frames[k].frame_id
            == id && !p(frames[k]) && forall|i: int| 0 <= i < k ==> p(#[trigger] frames[i]),
    decreases frames.len(),
{
    if frames.len() == 0 {
        0
    } else {
        let rest = frames.drop_last();
        let n = rest.len() as int;
        let k = lemma_first_failing(rest, p);
        assert forall|i: int| 0 <= i < n implies #[trigger] frames[i] == rest[i] by {}
        if first_failing(rest, p) is Some {
            assert(!p(frames[k]));
            k
        } else {
            assert forall|i: int| 0 <= i < n implies p(#[trigger] frames[i]) by {
                assert(p(rest[i]));
            }
            n
        }
    }
}

/// Every pose and centre of the frames is finite, and no id comes twice.
pub open spec fn are_sound_frames(frames: Seq<RigFrame>) -> bool {
    &&& forall|i: int, j: int|
        #![trigger frames[i], frames[j]]
        0 <= i < j < frames.len() ==> frames[i].frame_id != frames[j].frame_id
    &&& forall|k: int|
        0 <= k < frames.len() ==> (#[trigger] frames[k]).pose.finite()
            && frames[k].camera_center.finite()
}

proof fn lemma_sound_frames(frames: Seq<RigFrame>)
    ensures
        are_sound_frames(frames) <==> first_duplicate(ids_of(frames)) is None && first_failing(
            frames,
            has_finite_pose(),
        ) is None && first_failing(frames, has_finite_center()) is None,
{
    let ids = ids_of(frames);
    duplicates_occur_twice(ids);
    lemma_first_failing(frames, has_finite_pose());
    lemma_first_failing(frames, has_finite_center());
    if are_sound_frames(frames) {
        assert forall|i: int, j: int| #![trigger ids[i], ids[j]] 0 <= i < j
            < ids.len() implies ids[i] != ids[j] by {
            assert(frames[i].frame_id != frames[j].frame_id);
        }
    }
    if first_duplicate(ids) is None {
        assert forall|i: int, j: int|
            #![trigger frames[i], frames[j]]
            0 <= i < j < frames.len() implies frames[i].frame_id != frames[j].frame_id by {
            assert(ids[i] != ids[j]);
        }
    }
    if first_failing(frames, has_finite_pose()) is None && first_failing(
        frames,
        has_finite_center(),
    ) is None {
        assert forall|k: int| 0 <= k < frames.len() implies (#[trigger] frames[k]).pose.finite()
            && frames[k].camera_center.finite() by {
            assert(has_finite_pose()(frames[k]));
            assert(has_finite_center()(frames[k]));
        }
    }
}

/// The common ids are those that occur on both sides, each once, in increasing order.
pub proof fn common_ids_are_on_both_sides(source: Seq<RigFrame>, target: Seq<RigFrame>, id: u64)
    ensures
        strictly_increasing(common_ids(source, target)),
        common_ids(source, target).contains(id) <==> (exists|k: int|
            0 <= k < source.len() && (#[trigger] source[k]).frame_id == id) && (exists|k: int|
            0 <= k < target.len() && (#[trigger] target[k]).frame_id == id),
{
    let sorted = sorted_set_of(ids_of(source));
    crate::sequences::lemma_sorted_set_of(ids_of(source));
    let p = is_among(ids_of(target));
    let at = crate::sequences::lemma_filter_positions(sorted, p);
    let common = common_ids(source, target);
    assert forall|i: int, j: int| 0 <= i < j < common.len() implies common[i] < common[j] by {
        assert(at[i] < at[j]);
        assert(sorted[at[i]] < sorted[at[j]]);
    }
    crate::sequences::lemma_filter_holds(sorted, p, id);
    lemma_has_id(source, id);
    lemma_has_id(target, id);
}

proof fn lemma_has_id(frames: Seq<RigFrame>, id: u64)
    ensures
        ids_of(frames).contains(id) <==> exists|k: int|
            0 <= k < frames.len() && (#[trigger] frames[k]).frame_id == id,
{
    let ids = ids_of(frames);
    if ids.contains(id) {
        assert(frames[ids.index_of(id)].frame_id == id);
    }
    if exists|k: int| 0 <= k < frames.len() && (#[trigger] frames[k]).frame_id == id {
        let k = choose|k: int| 0 <= k < frames.len() && (#[trigger] frames[k]).frame_id == id;
        assert(ids[k] == id);
    }
}

/// A common frame is matched by its two camera centres, under its own id on both sides.
pub proof fn seams_match_camera_centres(
    source: Seq<RigFrame>,
    target: Seq<RigFrame>,
    ids: Seq<u64>,
    k: int,
    s: int,
    t: int,
)
    requires
        are_sound_frames(source),
        are_sound_frames(target),
        0 <= k < ids.len(),
        is_frame_at(source, s, ids[k]),
        is_frame_at(target, t, ids[k]),
    ensures
        seam_matches(source, target, ids).len() == ids.len(),
        seam_matches(source, target, ids)[k].source_landmark_id == ids[k],
        seam_matches(source, target, ids)[k].target_landmark_id == ids[k],
        seam_matches(source, target, ids)[k].source_point == source[s].camera_center,
        seam_matches(source, target, ids)[k].target_point == target[t].camera_center,
        frames_with(source, ids)[k] == source[s],
        frames_with(target, ids)[k] == target[t],
{
    lemma_frame_with(source, s, ids[k]);
    lemma_frame_with(target, t, ids[k]);
}

proof fn lemma_frame_with(frames: Seq<RigFrame>, k: int, id: u64)
    requires
        are_sound_frames(frames),
        is_frame_at(frames, k, id),
    ensures
        frame_with(frames, id) == frames[k],
{
    let j = choose|j: int| is_frame_at(frames, j, id);
    assert(is_frame_at(frames, j, id));
    if j < k {
        assert(frames[j].frame_id != frames[k].frame_id);
    } else if k < j {
        assert(frames[k].frame_id != frames[j].frame_id);
    }
}

/// What frames are refused for, in turn: a configuration that is out of range, frames that are
/// not sound, and fewer common frames than three or than asked for; and then a consensus whose
/// share of the frames is not finite or too low. Nothing is admitted otherwise. A refusal for
/// a frame names its side and its id.
pub proof fn frames_are_refused_for_a_reason<G, U, D, S, F, M, R, Q>(
    source_submap_id: u64,
    target_submap_id: u64,
    source: Seq<RigFrame>,
    target: Seq<RigFrame>,
    config: RigSubmapAlignmentConfig,
    numerics: RigNumerics<G, U, D, S, F, M, R, Q>,
    result: Result<RigSubmapAlignmentResult, RigSubmapAlignmentRejection>,
) where
    G: Fn(&Vec<RigFrame>, &Vec<RigFrame>, Scalar) -> RotationGeometry,
    U: Fn(&Vec<Scalar>) -> Scalar,
    D: Fn(Scalar) -> Scalar,
    S: Fn(&AlignmentTask) -> SceneGeometry,
    F: Fn(&AlignmentTask, &Vec<usize>) -> Option<Sim3Fit>,
    M: Fn(&Vec<Scalar>) -> Scalar,
    R: Fn(usize, usize) -> Scalar,
    Q: Fn(&AlignmentTask, &Sim3Fit, &Vec<usize>, Scalar) -> FitQuality,

    requires
        is_rig_alignment(
            source_submap_id,
            target_submap_id,
            source,
            target,
            config,
            numerics,
            result,
        ),
    ensures
        ({
            let kept = seam_ids(source, target, config).len();
            let enough = kept >= 3 && kept >= config.alignment.min_correspondences;
            let sound = are_sound_frames(source) && are_sound_frames(target);
            &&& !config.valid() <==> (result matches Err(rejection) && rejection.reason
                == RigSubmapAlignmentRejectionReason::InvalidConfiguration)
            &&& config.valid() && !sound <==> (result matches Err(rejection) && (rejection.reason
                == RigSubmapAlignmentRejectionReason::DuplicateFrameId || rejection.reason
                == RigSubmapAlignmentRejectionReason::NonFinitePose || rejection.reason
                == RigSubmapAlignmentRejectionReason::NonFiniteCameraCenter))
            &&& config.valid() && sound && !enough <==> (result matches Err(rejection)
                && rejection.reason == RigSubmapAlignmentRejectionReason::InsufficientCommonFrames)
            &&& result is Ok ==> config.valid() && sound && enough
            &&& (result matches Err(rejection) && rejection.reason
                == RigSubmapAlignmentRejectionReason::LowRotationConsensus) ==> {
                let ratio = result->Err_0.diagnostics.rotation_consensus_ratio;
                !ratio.is_finite() || ratio.lt(config.min_rotation_consensus_ratio)
            }
            &&& result matches Ok(admitted) ==> {
                let ratio = admitted.diagnostics.rotation_consensus_ratio;
                ratio.is_finite() && !ratio.lt(config.min_rotation_consensus_ratio)
            }
        }),
{
    lemma_sound_frames(source);
    lemma_sound_frames(target);
    let seam = seam_ids(source, target, config);
    if config.valid() && are_sound_frames(source) && are_sound_frames(target) && seam.len()
        >= config.alignment.required_matches() {
        let unique = RigDiagnosticsModel {
            source_unique_frame_count: sorted_set_of(ids_of(source)).len() as int,
            target_unique_frame_count: sorted_set_of(ids_of(target)).len() as int,
            ..counts_only(
                source.len() as int,
                target.len() as int,
                0,
                0,
                0,
                Seq::empty(),
                config.rotation_consensus_deg,
            )
        };
        let counted = RigDiagnosticsModel {
            common_frame_count: common_ids(source, target).len() as int,
            retained_frame_count: seam.len() as int,
            retained_frame_ids: seam,
            ..unique
        };
        let (geometry, sums, consensus, ratio) = choose|
            geometry: RotationGeometry,
            sums: Seq<Scalar>,
            consensus: RotationConsensus,
            ratio: Scalar,
        |
            {
                &&& #[trigger] is_seam_consensus(
                    source,
                    target,
                    seam,
                    config,
                    geometry,
                    sums,
                    consensus,
                    ratio,
                    numerics,
                )
                &&& is_consensus_verdict(
                    source_submap_id,
                    target_submap_id,
                    seam,
                    seam_matches(source, target, seam),
                    consensus,
                    ratio,
                    config,
                    counted,
                    numerics,
                    result,
                )
            };
        lemma_verdict_ratio(
            source_submap_id,
            target_submap_id,
            seam,
            seam_matches(source, target, seam),
            consensus,
            ratio,
            config,
            counted,
            numerics,
            result,
        );
    }
}

proof fn lemma_verdict_ratio<G, U, D, S, F, M, R, Q>(
    source_submap_id: u64,
    target_submap_id: u64,
    seam: Seq<u64>,
    matches: Seq<SubmapPointMatch>,
    consensus: RotationConsensus,
    ratio: Scalar,
    config: RigSubmapAlignmentConfig,
    counted: RigDiagnosticsModel,
    numerics: RigNumerics<G, U, D, S, F, M, R, Q>,
    result: Result<RigSubmapAlignmentResult, RigSubmapAlignmentRejection>,
) where
    G: Fn(&Vec<RigFrame>, &Vec<RigFrame>, Scalar) -> RotationGeometry,
    U: Fn(&Vec<Scalar>) -> Scalar,
    D: Fn(Scalar) -> Scalar,
    S: Fn(&AlignmentTask) -> SceneGeometry,
    F: Fn(&AlignmentTask, &Vec<usize>) -> Option<Sim3Fit>,
    M: Fn(&Vec<Scalar>) -> Scalar,
    R: Fn(usize, usize) -> Scalar,
    Q: Fn(&AlignmentTask, &Sim3Fit, &Vec<usize>, Scalar) -> FitQuality,

    requires
        is_consensus_verdict(
            source_submap_id,
            target_submap_id,
            seam,
            matches,
            consensus,
            ratio,
            config,
            counted,
            numerics,
            result,
        ),
    ensures
        match result {
            Ok(admitted) => admitted.diagnostics.rotation_consensus_ratio == ratio
                && ratio.is_finite() && !ratio.lt(config.min_rotation_consensus_ratio),
            Err(rejection) => {
                &&& rejection.diagnostics.rotation_consensus_ratio == ratio
                &&& rejection.reason == RigSubmapAlignmentRejectionReason::LowRotationConsensus
                    || rejection.reason == RigSubmapAlignmentRejectionReason::Sim3Rejected
                &&& rejection.reason == RigSubmapAlignmentRejectionReason::LowRotationConsensus
                    <==> !ratio.is_finite() || ratio.lt(config.min_rotation_consensus_ratio)
            },
        },
{
    if ratio.is_finite() && !ratio.lt(config.min_rotation_consensus_ratio) {
        let diagnostics = RigDiagnosticsModel {
            camera_centre_match_count: seam.len() as int,
            rotation_candidate_count: seam.len() as int,
            rotation_consensus_count: consensus.indices.len() as int,
            rotation_consensus_ratio: ratio,
            rotation_consensus_max_disagreement_deg: consensus.max_disagreement_deg,
            rotation_medoid_frame_id: Some(consensus.medoid_frame_id),
            ..counted
        };
        let (list, generic, fixed) = choose|
            list: Vec<SubmapPointMatch>,
            generic: Result<SubmapSim3Constraint, SubmapSim3Rejection>,
            fixed: Result<SubmapSim3Constraint, SubmapSim3Rejection>,
        |
            list@ == matches && #[trigger] is_routed(
                source_submap_id,
                target_submap_id,
                list,
                consensus.rotation,
                config,
                diagnostics,
                generic,
                fixed,
                numerics.alignment,
                result,
            );
        if config.prefer_fixed_rotation_alignment {
            assert(is_fixed_primary_route(config, diagnostics, fixed, generic, result));
        } else {
            assert(is_generic_primary_route(config, diagnostics, generic, fixed, result));
        }
        match result {
            Ok(admitted) => {
                assert(admitted.diagnostics@.rotation_consensus_ratio == ratio);
            },
            Err(rejection) => {
                assert(rejection.diagnostics@.rotation_consensus_ratio == ratio);
            },
        }
    } else {
        assert(result->Err_0.diagnostics@.rotation_consensus_ratio == ratio);
    }
}

/// Which alignment is reported: the preferred one where it succeeds; else the other one where
/// that is allowed and succeeds, and then it is told that a fallback was used; else none. With
/// a fixed rotation preferred the fallback is the generic alignment, and the other way round.
pub proof fn the_preferred_alignment_comes_first(
    config: RigSubmapAlignmentConfig,
    base: RigDiagnosticsModel,
    fixed: Result<SubmapSim3Constraint, SubmapSim3Rejection>,
    generic: Result<SubmapSim3Constraint, SubmapSim3Rejection>,
    result: Result<RigSubmapAlignmentResult, RigSubmapAlignmentRejection>,
    by_fixed: bool,
)
    requires
        if by_fixed {
            is_fixed_primary_route(config, base, fixed, generic, result)
        } else {
            is_generic_primary_route(config, base, generic, fixed, result)
        },
        !base.fallback_attempted,
        !base.fallback_used,
    ensures
        ({
            let first = if by_fixed {
                fixed
            } else {
                generic
            };
            let second = if by_fixed {
                generic
            } else {
                fixed
            };
            let allowed = if by_fixed {
                config.allow_generic_fallback_after_fixed_rotation
            } else {
                config.allow_fixed_rotation_fallback
            };
            &&& first matches Ok(constraint) ==> (result matches Ok(admitted) && {
                &&& admitted.constraint == constraint
                &&& !admitted.diagnostics.fallback_attempted
                &&& !admitted.diagnostics.fallback_used
                &&& admitted.diagnostics.alignment_method == Some(
                    if by_fixed {
                        RigSubmapAlignmentMethod::FixedRotationPrimary
                    } else {
                        RigSubmapAlignmentMethod::Generic
                    },
                )
                &&& admitted.diagnostics.sim3_inlier_count == Some(
                    constraint.inlier_match_indices.len(),
                )
                &&& admitted.diagnostics.sim3_inlier_ratio == Some(constraint.inlier_ratio)
            })
            &&& first matches Err(refusal) ==> {
                &&& !allowed ==> (result matches Err(rejection) && {
                    &&& rejection.reason == RigSubmapAlignmentRejectionReason::Sim3Rejected
                    &&& rejection.sim3_rejection == Some(refusal)
                    &&& rejection.fallback_rejection is None
                    &&& !rejection.diagnostics.fallback_attempted
                })
                &&& allowed && second is Ok ==> (result matches Ok(admitted) && {
                    &&& admitted.constraint == second->Ok_0
                    &&& admitted.diagnostics.fallback_attempted
                    &&& admitted.diagnostics.fallback_used
                    &&& admitted.diagnostics.alignment_method == Some(
                        if by_fixed {
                            RigSubmapAlignmentMethod::GenericFallback
                        } else {
                            RigSubmapAlignmentMethod::FixedRotationFallback
                        },
                    )
                })
                &&& allowed && second is Err ==> (result matches Err(rejection) && {
                    &&& rejection.reason == RigSubmapAlignmentRejectionReason::Sim3Rejected
                    &&& rejection.sim3_rejection == Some(refusal)
                    &&& rejection.fallback_rejection == Some(second->Err_0)
                    &&& rejection.diagnostics.fallback_attempted
                    &&& !rejection.diagnostics.fallback_used
                })
            }
        }),
{
    match result {
        Ok(admitted) => {
            let shown = admitted.diagnostics@;
            assert(shown.fallback_attempted == admitted.diagnostics.fallback_attempted);
        },
        Err(rejection) => {
            let shown = rejection.diagnostics@;
            assert(shown.fallback_attempted == rejection.diagnostics.fallback_attempted);
        },
    }
}

/// Where the scale is fixed every match is tried on its own, once each, by increasing landmark
/// ids.
pub proof fn matches_are_tried_one_by_one(
    samples: Seq<Vec<usize>>,
    matches: Seq<SubmapPointMatch>,
    i: int,
    j: int,
)
    requires
        are_single_samples(samples, matches),
        matches.len() <= usize::MAX,
        0 <= i < j < matches.len(),
    ensures
        samples.len() == matches.len(),
        samples[i]@.len() == 1,
        samples[i]@[0] < matches.len(),
        samples[i]@[0] != samples[j]@[0],
        ({
            let a = matches[samples[i]@[0] as int];
            let b = matches[samples[j]@[0] as int];
            a.source_landmark_id < b.source_landmark_id || (a.source_landmark_id
                == b.source_landmark_id && a.target_landmark_id <= b.target_landmark_id)
        }),
{
    let keys = matches.map_values(|point_match: SubmapPointMatch| landmark_key(point_match));
    crate::order::stable_order_exists(keys);
    let order = stable_order_of(keys);
    assert(samples[i]@ == seq![order[i]]);
    assert(samples[j]@ == seq![order[j]]);
    assert(crate::order::precedes(keys, order[i], order[j]));
}

} // verus!
