//! Typed loop constraints between independently reconstructed local submaps.
//!
//! Rotation-only evidence and scale-bearing similarity evidence are intentionally
//! different types. A caller cannot accidentally turn a homography-dominant or
//! low-parallax loop into a scale edge merely by filling a default scale field.
//!
//! The estimators here decide: which matches enter, which hypothesis wins, which
//! matches support it, and which gate admits or rejects the result. The geometry
//! behind the decisions (singular values, least-squares fits, residuals, means) is
//! computed by the functions in [`AlignmentNumerics`], which the caller supplies.
use crate::geometry::{Point3, Quaternion, Sim3};
use crate::sampling::{
    are_samples, draw_triples, generator_repeats, is_drawn, one_seed_gives_the_same_samples,
    same_samples,
};
use crate::scalar::Scalar;
use crate::sequences::{count_where, indices_where, lemma_indices_where};
use vstd::prelude::*;

verus! {

#[derive(Clone, Copy, Debug, PartialEq, Eq, Structural)]
pub enum RotationConstraintGeometry {
    Essential,
    HomographyDominant,
    PureRotation,
}

/// A loop that constrains orientation but makes no translation or scale claim.
#[derive(Clone, Copy, Debug, PartialEq, Eq, Structural)]
pub struct RotationOnlyConstraint {
    pub source_submap_id: u64,
    pub target_submap_id: u64,
    /// Rotation from the source local frame into the target local frame.
    pub target_from_source_rotation: Quaternion,
    pub inlier_count: usize,
    pub spatial_coverage: Scalar,
    pub geometry: RotationConstraintGeometry,
}

/// One independently reconstructed same-point relation across two submaps.
#[derive(Clone, Copy, Debug, PartialEq, Eq, Structural)]
pub struct SubmapPointMatch {
    pub source_landmark_id: u64,
    pub target_landmark_id: u64,
    pub source_point: Point3,
    pub target_point: Point3,
}

#[derive(Clone, Copy, Debug, PartialEq, Eq, Structural)]
pub struct SubmapSim3AlignmentConfig {
    pub min_correspondences: usize,
    pub min_inliers: usize,
    pub min_inlier_ratio: Scalar,
    /// Inlier distance divided by the target point-cloud median pair distance.
    pub max_inlier_residual_ratio: Scalar,
    pub max_mean_residual_ratio: Scalar,
    pub max_rotation_disagreement_deg: Scalar,
    /// Median absolute leave-one-out log-scale deviation from the final fit.
    pub max_leave_one_out_log_scale_mad: Scalar,
    /// Nearly collinear point sets have a smaller ratio of singular values.
    pub min_second_to_first_singular_ratio: Scalar,
    pub min_scale: Scalar,
    pub max_scale: Scalar,
    pub ransac_iterations: usize,
    pub random_seed: u64,
}

impl Default for SubmapSim3AlignmentConfig {
    /// An inlier ratio of 0.6, residual ratios of 0.03 and 0.015, 10 degrees, a
    /// deviation of 0.03, a singular ratio of 0.01, and scales from 1e-3 to 1e3.
    fn default() -> (config: Self)
        ensures
            config == (SubmapSim3AlignmentConfig {
                min_correspondences: 12,
                min_inliers: 10,
                min_inlier_ratio: Scalar { bits: 0x3FE3_3333_3333_3333 },
                max_inlier_residual_ratio: Scalar { bits: 0x3F9E_B851_EB85_1EB8 },
                max_mean_residual_ratio: Scalar { bits: 0x3F8E_B851_EB85_1EB8 },
                max_rotation_disagreement_deg: Scalar { bits: 0x4024_0000_0000_0000 },
                max_leave_one_out_log_scale_mad: Scalar { bits: 0x3F9E_B851_EB85_1EB8 },
                min_second_to_first_singular_ratio: Scalar { bits: 0x3F84_7AE1_47AE_147B },
                min_scale: Scalar { bits: 0x3F50_624D_D2F1_A9FC },
                max_scale: Scalar { bits: 0x408F_4000_0000_0000 },
                ransac_iterations: 512,
                random_seed: 0,
            }),
    {
        SubmapSim3AlignmentConfig {
            min_correspondences: 12,
            min_inliers: 10,
            min_inlier_ratio: Scalar { bits: 0x3FE3_3333_3333_3333 },
            max_inlier_residual_ratio: Scalar { bits: 0x3F9E_B851_EB85_1EB8 },
            max_mean_residual_ratio: Scalar { bits: 0x3F8E_B851_EB85_1EB8 },
            max_rotation_disagreement_deg: Scalar { bits: 0x4024_0000_0000_0000 },
            max_leave_one_out_log_scale_mad: Scalar { bits: 0x3F9E_B851_EB85_1EB8 },
            min_second_to_first_singular_ratio: Scalar { bits: 0x3F84_7AE1_47AE_147B },
            min_scale: Scalar { bits: 0x3F50_624D_D2F1_A9FC },
            max_scale: Scalar { bits: 0x408F_4000_0000_0000 },
            ransac_iterations: 512,
            random_seed: 0,
        }
    }
}

impl SubmapSim3AlignmentConfig {
    /// The scale is finite and within bounds.
    pub open spec fn scale_valid(self, scale: Scalar) -> bool {
        scale.is_finite() && self.min_scale.le(scale) && scale.le(self.max_scale)
    }

    /// The matches that are required: three at least.
    pub open spec fn required_matches(self) -> int {
        if self.min_correspondences >= 3 {
            self.min_correspondences as int
        } else {
            3
        }
    }

    /// The inliers that are required: three at least.
    pub open spec fn required_inliers(self) -> int {
        if self.min_inliers >= 3 {
            self.min_inliers as int
        } else {
            3
        }
    }

    /// Whether a scale is finite and within bounds.
    pub fn valid_scale(&self, scale: Scalar) -> (b: bool)
        ensures
            b == self.scale_valid(scale),
    {
        scale.is_finite() && self.min_scale.le(scale) && scale.le(self.max_scale)
    }
}

/// A full similarity measurement, admitted only from independent 3D geometry.
#[derive(Clone, Debug, PartialEq, Eq)]
pub struct SubmapSim3Constraint {
    pub source_submap_id: u64,
    pub target_submap_id: u64,
    /// Takes source points to target points.
    pub target_from_source: Sim3,
    pub correspondence_count: usize,
    pub inlier_match_indices: Vec<usize>,
    pub inlier_ratio: Scalar,
    pub mean_residual_ratio: Scalar,
    pub rotation_disagreement_deg: Scalar,
    pub leave_one_out_log_scale_mad: Scalar,
    pub target_scene_scale: Scalar,
}

#[derive(Clone, Debug, PartialEq, Eq)]
pub enum VerifiedSubmapConstraint {
    RotationOnly(RotationOnlyConstraint),
    Sim3(SubmapSim3Constraint),
}

#[derive(Clone, Copy, Debug, PartialEq, Eq, Structural)]
pub enum SubmapSim3RejectionReason {
    TooFewCorrespondences,
    NonFinitePoint,
    NonUniqueCorrespondences,
    DegenerateSourceGeometry,
    DegenerateTargetGeometry,
    InvalidTargetSceneScale,
    NoRobustFit,
    ScaleOutOfBounds,
    TooFewInliers,
    LowInlierRatio,
    HighMeanResidual,
    RotationInconsistent,
    UnstableLeaveOneOutScale,
}

#[derive(Clone, Copy, Debug, PartialEq, Eq)]
pub struct SubmapSim3Rejection {
    pub reason: SubmapSim3RejectionReason,
    pub correspondence_count: usize,
    pub inlier_count: usize,
    pub inlier_ratio: Scalar,
    pub mean_residual_ratio: Option<Scalar>,
    pub rotation_disagreement_deg: Option<Scalar>,
    pub leave_one_out_log_scale_mad: Option<Scalar>,
}

impl SubmapSim3Rejection {
    /// A rejection before any inlier was counted.
    pub open spec fn spec_early(reason: SubmapSim3RejectionReason, correspondence_count: usize) -> Self {
        SubmapSim3Rejection {
            reason,
            correspondence_count,
            inlier_count: 0,
            inlier_ratio: Scalar::zero(),
            mean_residual_ratio: None,
            rotation_disagreement_deg: None,
            leave_one_out_log_scale_mad: None,
        }
    }

    /// A rejection before any inlier was counted.
    #[verifier::when_used_as_spec(spec_early)]
    pub fn early(reason: SubmapSim3RejectionReason, correspondence_count: usize) -> (r: Self)
        ensures
            r == SubmapSim3Rejection::spec_early(reason, correspondence_count),
    {
        SubmapSim3Rejection {
            reason,
            correspondence_count,
            inlier_count: 0,
            inlier_ratio: Scalar::zero(),
            mean_residual_ratio: None,
            rotation_disagreement_deg: None,
            leave_one_out_log_scale_mad: None,
        }
    }
}

/// What the point clouds of the matches look like.
#[derive(Clone, Copy, Debug, PartialEq, Eq, Structural)]
pub struct SceneGeometry {
    /// Second to first singular value of the centred source points.
    pub source_singular_ratio: Scalar,
    /// Second to first singular value of the centred target points.
    pub target_singular_ratio: Scalar,
    /// Median distance between target points.
    pub target_scene_scale: Scalar,
    /// Largest residual of an inlier.
    pub inlier_threshold: Scalar,
}

/// A transform and the distance it leaves between each match's points.
#[derive(Clone, Debug, PartialEq, Eq)]
pub struct Sim3Fit {
    pub transform: Sim3,
    pub residuals: Vec<Scalar>,
}

/// How good a final fit is.
#[derive(Clone, Copy, Debug, PartialEq, Eq)]
pub struct FitQuality {
    /// Mean residual of the inliers divided by the scene scale.
    pub mean_residual_ratio: Scalar,
    /// Angle between the fitted and the independent rotation.
    pub rotation_disagreement_deg: Scalar,
    /// Median absolute log-scale deviation when one inlier is left out; none where a
    /// fit without one of the inliers fails.
    pub leave_one_out_log_scale_mad: Option<Scalar>,
}

/// The arithmetic that an estimator rests on.
pub struct AlignmentNumerics<S, F, M, R, Q> {
    /// The geometry of a task's matches.
    pub scene: S,
    /// The best transform of some of a task's matches, by index, with the residuals of
    /// all of them; none where it is not determined.
    pub fit: F,
    /// The mean of a list of numbers.
    pub mean: M,
    /// The quotient of two counts.
    pub fraction: R,
    /// The quality of a fit to some of the matches, given the scene scale.
    pub quality: Q,
}

/// The kind of estimator.
#[derive(Clone, Copy, Debug, PartialEq, Eq, Structural)]
pub enum AlignmentKind {
    /// Rotation, shift and scale of the points.
    Generic,
    /// Shift and scale of the points, the rotation given.
    FixedRotation,
    /// Shift of the points, the rotation given, the scale one.
    UnitScale,
}

/// Scene scales up to this one, 1e-12, are no scale at all.
pub const MIN_SCENE_SCALE_BITS: u64 = 0x3D71_9799_812D_EA11;

impl<S, F, M, R, Q> AlignmentNumerics<S, F, M, R, Q> where
    S: Fn(&AlignmentTask) -> SceneGeometry,
    F: Fn(&AlignmentTask, &Vec<usize>) -> Option<Sim3Fit>,
    M: Fn(&Vec<Scalar>) -> Scalar,
    R: Fn(usize, usize) -> Scalar,
    Q: Fn(&AlignmentTask, &Sim3Fit, &Vec<usize>, Scalar) -> FitQuality,
{
    /// The functions take any argument, and a fit has one residual for each match.
    pub open spec fn callable(self) -> bool {
        &&& forall|task: AlignmentTask| call_requires(self.scene, (&task,))
        &&& forall|task: AlignmentTask, indices: Vec<usize>|
            call_requires(self.fit, (&task, &indices))
        &&& forall|task: AlignmentTask, indices: Vec<usize>, fit: Sim3Fit| #[trigger]
            call_ensures(self.fit, (&task, &indices), Some(fit)) ==> fit.residuals.len()
                == task.matches.len()
        &&& forall|values: Vec<Scalar>| call_requires(self.mean, (&values,))
        &&& forall|part: usize, whole: usize| call_requires(self.fraction, (part, whole))
        &&& forall|task: AlignmentTask, fit: Sim3Fit, indices: Vec<usize>, scale: Scalar|
            call_requires(self.quality, (&task, &fit, &indices, scale))
    }

    /// `fit` is a fit to the matches with these indices, with what the task gives put in
    /// place of what was fitted.
    pub open spec fn fits(
        self,
        task: AlignmentTask,
        indices: Seq<usize>,
        fit: Option<Sim3Fit>,
    ) -> bool {
        exists|list: Vec<usize>, raw: Option<Sim3Fit>|
            list@ == indices && #[trigger] call_ensures(self.fit, (&task, &list), raw) && fit
                == held_fit(task, raw)
    }

    /// `mean` is the mean of these numbers.
    pub open spec fn averages(self, values: Seq<Scalar>, mean: Scalar) -> bool {
        exists|list: Vec<Scalar>| list@ == values && #[trigger]
            call_ensures(self.mean, (&list,), mean)
    }

    /// `quality` is that of the fit to the matches with these indices.
    pub open spec fn rates(
        self,
        task: AlignmentTask,
        fit: Sim3Fit,
        indices: Seq<usize>,
        scale: Scalar,
        quality: FitQuality,
    ) -> bool {
        exists|list: Vec<usize>| list@ == indices && #[trigger]
            call_ensures(self.quality, (&task, &fit, &list, scale), quality)
    }
}

/// The transform of an estimator: fitted, but for the rotation where it is given and the
/// scale where it is one.
pub open spec fn held_transform(
    kind: AlignmentKind,
    rotation: Quaternion,
    fitted: Sim3,
) -> Sim3 {
    match kind {
        AlignmentKind::Generic => fitted,
        AlignmentKind::FixedRotation => Sim3 { rotation, ..fitted },
        AlignmentKind::UnitScale => Sim3 { rotation, scale: Scalar::one(), ..fitted },
    }
}

/// A fit with the transform of its estimator.
pub open spec fn held_fit(task: AlignmentTask, raw: Option<Sim3Fit>) -> Option<Sim3Fit> {
    match raw {
        None => None,
        Some(fit) => Some(
            Sim3Fit {
                transform: held_transform(task.kind, task.rotation, fit.transform),
                residuals: fit.residuals,
            },
        ),
    }
}

/// All points are finite.
pub open spec fn matches_finite(matches: Seq<SubmapPointMatch>) -> bool {
    forall|k: int|
        0 <= k < matches.len() ==> (#[trigger] matches[k]).source_point.finite()
            && matches[k].target_point.finite()
}

/// No landmark takes part twice, on either side.
pub open spec fn matches_unique(matches: Seq<SubmapPointMatch>) -> bool {
    forall|i: int, j: int|
        0 <= i < j < matches.len() ==> (#[trigger] matches[i]).source_landmark_id != (
        #[trigger] matches[j]).source_landmark_id && matches[i].target_landmark_id
            != matches[j].target_landmark_id
}

/// The first rule on the inputs that is broken. An estimator with a unit scale also
/// wants a finite rotation, and bounds that admit its scale.
pub open spec fn input_gate(
    kind: AlignmentKind,
    matches: Seq<SubmapPointMatch>,
    rotation: Quaternion,
    config: SubmapSim3AlignmentConfig,
) -> Option<SubmapSim3RejectionReason> {
    if matches.len() < config.required_matches() {
        Some(SubmapSim3RejectionReason::TooFewCorrespondences)
    } else if (kind is UnitScale && !rotation.finite()) || !matches_finite(matches) {
        Some(SubmapSim3RejectionReason::NonFinitePoint)
    } else if !matches_unique(matches) {
        Some(SubmapSim3RejectionReason::NonUniqueCorrespondences)
    } else if kind is UnitScale && !config.scale_valid(Scalar::one()) {
        Some(SubmapSim3RejectionReason::ScaleOutOfBounds)
    } else {
        None
    }
}

/// The first rule on the geometry that is broken. Only the generic estimator minds
/// collinear points.
pub open spec fn scene_gate(
    kind: AlignmentKind,
    scene: SceneGeometry,
    config: SubmapSim3AlignmentConfig,
) -> Option<SubmapSim3RejectionReason> {
    if kind is Generic && scene.source_singular_ratio.lt(
        config.min_second_to_first_singular_ratio,
    ) {
        Some(SubmapSim3RejectionReason::DegenerateSourceGeometry)
    } else if kind is Generic && scene.target_singular_ratio.lt(
        config.min_second_to_first_singular_ratio,
    ) {
        Some(SubmapSim3RejectionReason::DegenerateTargetGeometry)
    } else if !scene.target_scene_scale.is_finite() || scene.target_scene_scale.le(
        Scalar { bits: MIN_SCENE_SCALE_BITS },
    ) {
        Some(SubmapSim3RejectionReason::InvalidTargetSceneScale)
    } else {
        None
    }
}

/// Selects the residuals within the threshold.
pub open spec fn is_inlier(residuals: Seq<Scalar>, threshold: Scalar) -> spec_fn(int) -> bool {
    |k: int| residuals[k].le(threshold)
}

/// The matches whose residual does not exceed the threshold, in increasing order.
pub open spec fn inliers_of(residuals: Seq<Scalar>, threshold: Scalar) -> Seq<usize> {
    indices_where(residuals.len(), is_inlier(residuals, threshold))
}

/// The residuals of some of the matches.
pub open spec fn residuals_at(residuals: Seq<Scalar>, indices: Seq<usize>) -> Seq<Scalar> {
    Seq::new(indices.len(), |k: int| residuals[indices[k] as int])
}

/// A set of inliers and the mean of their residuals.
#[verifier::ext_equal]
pub struct Consensus {
    pub inliers: Seq<usize>,
    pub mean: Scalar,
}

/// One hypothesis: its fit, and the mean residual of its inliers.
pub struct Hypothesis {
    pub fit: Option<Sim3Fit>,
    pub mean: Scalar,
}

/// The consensus before any hypothesis.
pub open spec fn no_consensus() -> Consensus {
    Consensus { inliers: Seq::empty(), mean: Scalar::infinity() }
}

/// What a fit offers.
pub open spec fn offered(fit: Sim3Fit, mean: Scalar, threshold: Scalar) -> Consensus {
    let inliers = inliers_of(fit.residuals@, threshold);
    Consensus {
        inliers,
        mean: if inliers.len() == 0 {
            Scalar::infinity()
        } else {
            mean
        },
    }
}

/// An offer beats the best consensus so far: more inliers, or as many with a smaller
/// mean residual.
pub open spec fn beats(kind: AlignmentKind, offer: Consensus, best: Consensus) -> bool {
    ||| offer.inliers.len() > best.inliers.len()
    ||| offer.inliers.len() == best.inliers.len() && if kind is UnitScale {
        offer.mean.total_rank() < best.mean.total_rank()
    } else {
        offer.mean.lt(best.mean)
    }
}

/// The best consensus of the hypotheses, taken in turn. A hypothesis without a fit, or
/// with a scale out of bounds, offers nothing; of equal offers the first one stays.
pub open spec fn best_consensus(
    kind: AlignmentKind,
    hypotheses: Seq<Hypothesis>,
    threshold: Scalar,
    config: SubmapSim3AlignmentConfig,
) -> Consensus
    decreases hypotheses.len(),
{
    if hypotheses.len() == 0 {
        no_consensus()
    } else {
        let best = best_consensus(kind, hypotheses.drop_last(), threshold, config);
        match hypotheses.last().fit {
            Some(fit) if config.scale_valid(fit.transform.scale) => {
                let offer = offered(fit, hypotheses.last().mean, threshold);
                if beats(kind, offer, best) {
                    offer
                } else {
                    best
                }
            },
            _ => best,
        }
    }
}

/// The hypothesis is what the arithmetic makes of a sample of matches.
pub open spec fn is_hypothesis_of<S, F, M, R, Q>(
    hypothesis: Hypothesis,
    sample: Seq<usize>,
    task: AlignmentTask,
    threshold: Scalar,
    numerics: AlignmentNumerics<S, F, M, R, Q>,
) -> bool where
    S: Fn(&AlignmentTask) -> SceneGeometry,
    F: Fn(&AlignmentTask, &Vec<usize>) -> Option<Sim3Fit>,
    M: Fn(&Vec<Scalar>) -> Scalar,
    R: Fn(usize, usize) -> Scalar,
    Q: Fn(&AlignmentTask, &Sim3Fit, &Vec<usize>, Scalar) -> FitQuality,
{
    &&& numerics.fits(task, sample, hypothesis.fit)
    &&& hypothesis.fit matches Some(fit) ==> {
        let inliers = inliers_of(fit.residuals@, threshold);
        task.config.scale_valid(fit.transform.scale) && inliers.len() > 0 ==> numerics.averages(
            residuals_at(fit.residuals@, inliers),
            hypothesis.mean,
        )
    }
}

/// There is one hypothesis for each sample, in order.
pub open spec fn are_hypotheses_of<S, F, M, R, Q>(
    hypotheses: Seq<Hypothesis>,
    samples: Seq<Vec<usize>>,
    task: AlignmentTask,
    threshold: Scalar,
    numerics: AlignmentNumerics<S, F, M, R, Q>,
) -> bool where
    S: Fn(&AlignmentTask) -> SceneGeometry,
    F: Fn(&AlignmentTask, &Vec<usize>) -> Option<Sim3Fit>,
    M: Fn(&Vec<Scalar>) -> Scalar,
    R: Fn(usize, usize) -> Scalar,
    Q: Fn(&AlignmentTask, &Sim3Fit, &Vec<usize>, Scalar) -> FitQuality,
{
    &&& hypotheses.len() == samples.len()
    &&& forall|k: int|
        0 <= k < samples.len() ==> is_hypothesis_of(
            #[trigger] hypotheses[k],
            samples[k]@,
            task,
            threshold,
            numerics,
        )
}

/// A rejection after inliers were counted.
pub open spec fn counted(
    reason: SubmapSim3RejectionReason,
    count: usize,
    inliers: Seq<usize>,
    ratio: Scalar,
) -> SubmapSim3Rejection {
    SubmapSim3Rejection {
        reason,
        correspondence_count: count,
        inlier_count: inliers.len() as usize,
        inlier_ratio: ratio,
        mean_residual_ratio: None,
        rotation_disagreement_deg: None,
        leave_one_out_log_scale_mad: None,
    }
}

/// What is wrong with the size of a consensus, if anything is.
pub open spec fn consensus_gate(
    inliers: Seq<usize>,
    ratio: Scalar,
    config: SubmapSim3AlignmentConfig,
) -> Option<SubmapSim3RejectionReason> {
    if inliers.len() < config.required_inliers() {
        Some(SubmapSim3RejectionReason::TooFewInliers)
    } else if ratio.lt(config.min_inlier_ratio) {
        Some(SubmapSim3RejectionReason::LowInlierRatio)
    } else {
        None
    }
}

/// What an estimator is asked.
#[derive(Clone, Copy)]
pub struct AlignmentTask<'a> {
    pub kind: AlignmentKind,
    pub source_submap_id: u64,
    pub target_submap_id: u64,
    pub matches: &'a Vec<SubmapPointMatch>,
    /// The independently verified rotation from source to target.
    pub rotation: Quaternion,
    pub config: SubmapSim3AlignmentConfig,
}

/// The rotation disagreement that counts: that of the fit, or zero where the rotation
/// was given.
pub open spec fn effective_rotation(kind: AlignmentKind, quality: FitQuality) -> Scalar {
    if kind is Generic {
        quality.rotation_disagreement_deg
    } else {
        Scalar::zero()
    }
}

/// The scale deviation that counts: zero where the scale was given, infinite where a
/// fit without one of the inliers failed.
pub open spec fn effective_deviation(kind: AlignmentKind, quality: FitQuality) -> Scalar {
    if kind is UnitScale {
        Scalar::zero()
    } else {
        match quality.leave_one_out_log_scale_mad {
            Some(deviation) => deviation,
            None => Scalar::infinity(),
        }
    }
}

/// A measure passes: it is finite and does not exceed its maximum.
pub open spec fn passes(value: Scalar, maximum: Scalar) -> bool {
    value.is_finite() && !maximum.lt(value)
}

/// What the quality of the final fit leads to: a rejection at the first gate that it
/// fails, with the measures taken up to there, or the constraint.
pub open spec fn quality_verdict(
    task: AlignmentTask,
    scene: SceneGeometry,
    fit: Sim3Fit,
    inliers: Seq<usize>,
    ratio: Scalar,
    quality: FitQuality,
    result: Result<SubmapSim3Constraint, SubmapSim3Rejection>,
) -> bool {
    let count = task.matches.len() as usize;
    let config = task.config;
    let mean = quality.mean_residual_ratio;
    let rotation = effective_rotation(task.kind, quality);
    let deviation = effective_deviation(task.kind, quality);
    if !passes(mean, config.max_mean_residual_ratio) {
        result == Err::<SubmapSim3Constraint, _>(
            SubmapSim3Rejection {
                mean_residual_ratio: Some(mean),
                ..counted(SubmapSim3RejectionReason::HighMeanResidual, count, inliers, ratio)
            },
        )
    } else if !passes(rotation, config.max_rotation_disagreement_deg) {
        result == Err::<SubmapSim3Constraint, _>(
            SubmapSim3Rejection {
                mean_residual_ratio: Some(mean),
                rotation_disagreement_deg: Some(rotation),
                ..counted(SubmapSim3RejectionReason::RotationInconsistent, count, inliers, ratio)
            },
        )
    } else if !passes(deviation, config.max_leave_one_out_log_scale_mad) {
        result == Err::<SubmapSim3Constraint, _>(
            SubmapSim3Rejection {
                mean_residual_ratio: Some(mean),
                rotation_disagreement_deg: Some(rotation),
                leave_one_out_log_scale_mad: Some(deviation),
                ..counted(
                    SubmapSim3RejectionReason::UnstableLeaveOneOutScale,
                    count,
                    inliers,
                    ratio,
                )
            },
        )
    } else {
        result matches Ok(constraint) && {
            &&& constraint.source_submap_id == task.source_submap_id
            &&& constraint.target_submap_id == task.target_submap_id
            &&& constraint.target_from_source == fit.transform
            &&& constraint.correspondence_count == count
            &&& constraint.inlier_match_indices@ == inliers
            &&& constraint.inlier_ratio == ratio
            &&& constraint.mean_residual_ratio == mean
            &&& constraint.rotation_disagreement_deg == rotation
            &&& constraint.leave_one_out_log_scale_mad == deviation
            &&& constraint.target_scene_scale == scene.target_scene_scale
        }
    }
}

/// A fit that is missing or has a scale out of bounds rejects.
pub open spec fn fit_gate(fit: Option<Sim3Fit>, config: SubmapSim3AlignmentConfig) -> Option<
    SubmapSim3RejectionReason,
> {
    match fit {
        None => Some(SubmapSim3RejectionReason::NoRobustFit),
        Some(f) => if config.scale_valid(f.transform.scale) {
            None
        } else {
            Some(SubmapSim3RejectionReason::ScaleOutOfBounds)
        },
    }
}

/// What the final inliers lead to: their number is gated, they are fitted, and the
/// quality of the fit decides.
pub open spec fn final_verdict<S, F, M, R, Q>(
    task: AlignmentTask,
    scene: SceneGeometry,
    inliers: Seq<usize>,
    ratio: Scalar,
    fit: Option<Sim3Fit>,
    quality: FitQuality,
    numerics: AlignmentNumerics<S, F, M, R, Q>,
    result: Result<SubmapSim3Constraint, SubmapSim3Rejection>,
) -> bool where
    S: Fn(&AlignmentTask) -> SceneGeometry,
    F: Fn(&AlignmentTask, &Vec<usize>) -> Option<Sim3Fit>,
    M: Fn(&Vec<Scalar>) -> Scalar,
    R: Fn(usize, usize) -> Scalar,
    Q: Fn(&AlignmentTask, &Sim3Fit, &Vec<usize>, Scalar) -> FitQuality,
{
    let count = task.matches.len() as usize;
    &&& call_ensures(numerics.fraction, (inliers.len() as usize, count), ratio)
    &&& match consensus_gate(inliers, ratio, task.config) {
        Some(reason) => result == Err::<SubmapSim3Constraint, _>(
            counted(reason, count, inliers, ratio),
        ),
        None => {
            &&& numerics.fits(task, inliers, fit)
            &&& match fit_gate(fit, task.config) {
                Some(reason) => result == Err::<SubmapSim3Constraint, _>(
                    counted(reason, count, inliers, ratio),
                ),
                None => {
                    &&& numerics.rates(
                        task,
                        fit->0,
                        inliers,
                        scene.target_scene_scale,
                        quality,
                    )
                    &&& quality_verdict(
                        task,
                        scene,
                        fit->0,
                        inliers,
                        ratio,
                        quality,
                        result,
                    )
                },
            }
        },
    }
}

/// What the winning consensus leads to: its size is gated, it is fitted, the matches
/// are classified anew against that fit, and the final inliers decide.
pub open spec fn consensus_verdict<S, F, M, R, Q>(
    task: AlignmentTask,
    scene: SceneGeometry,
    best: Seq<usize>,
    ratio: Scalar,
    refit: Option<Sim3Fit>,
    numerics: AlignmentNumerics<S, F, M, R, Q>,
    result: Result<SubmapSim3Constraint, SubmapSim3Rejection>,
) -> bool where
    S: Fn(&AlignmentTask) -> SceneGeometry,
    F: Fn(&AlignmentTask, &Vec<usize>) -> Option<Sim3Fit>,
    M: Fn(&Vec<Scalar>) -> Scalar,
    R: Fn(usize, usize) -> Scalar,
    Q: Fn(&AlignmentTask, &Sim3Fit, &Vec<usize>, Scalar) -> FitQuality,
{
    let count = task.matches.len() as usize;
    if best.len() == 0 {
        result == Err::<SubmapSim3Constraint, _>(
            SubmapSim3Rejection::early(SubmapSim3RejectionReason::NoRobustFit, count),
        )
    } else {
        &&& call_ensures(numerics.fraction, (best.len() as usize, count), ratio)
        &&& match consensus_gate(best, ratio, task.config) {
            Some(reason) => result == Err::<SubmapSim3Constraint, _>(
                counted(reason, count, best, ratio),
            ),
            None => {
                &&& numerics.fits(task, best, refit)
                &&& match fit_gate(refit, task.config) {
                    Some(reason) => result == Err::<SubmapSim3Constraint, _>(
                        counted(reason, count, best, ratio),
                    ),
                    None => exists|last_ratio: Scalar, fit: Option<Sim3Fit>, quality: FitQuality|
                        #[trigger]
                        final_verdict(
                            task,
                            scene,
                            inliers_of(refit->0.residuals@, scene.inlier_threshold),
                            last_ratio,
                            fit,
                            quality,
                            numerics,
                            result,
                        ),
                }
            },
        }
    }
}

/// `result` is what the estimator makes of the matches with these samples.
pub open spec fn is_alignment<S, F, M, R, Q>(
    task: AlignmentTask,
    samples: Seq<Vec<usize>>,
    numerics: AlignmentNumerics<S, F, M, R, Q>,
    result: Result<SubmapSim3Constraint, SubmapSim3Rejection>,
) -> bool where
    S: Fn(&AlignmentTask) -> SceneGeometry,
    F: Fn(&AlignmentTask, &Vec<usize>) -> Option<Sim3Fit>,
    M: Fn(&Vec<Scalar>) -> Scalar,
    R: Fn(usize, usize) -> Scalar,
    Q: Fn(&AlignmentTask, &Sim3Fit, &Vec<usize>, Scalar) -> FitQuality,
{
    let count = task.matches.len() as usize;
    match input_gate(task.kind, task.matches@, task.rotation, task.config) {
        Some(reason) => result == Err::<SubmapSim3Constraint, _>(
            SubmapSim3Rejection::early(reason, count),
        ),
        None => exists|scene: SceneGeometry| #[trigger]
            call_ensures(numerics.scene, (&task,), scene) && match scene_gate(
                task.kind,
                scene,
                task.config,
            ) {
                Some(reason) => result == Err::<SubmapSim3Constraint, _>(
                    SubmapSim3Rejection::early(reason, count),
                ),
                None => is_searched(task, scene, samples, numerics, result),
            },
    }
}

/// The samples are tried, and the best consensus decides.
pub open spec fn is_searched<S, F, M, R, Q>(
    task: AlignmentTask,
    scene: SceneGeometry,
    samples: Seq<Vec<usize>>,
    numerics: AlignmentNumerics<S, F, M, R, Q>,
    result: Result<SubmapSim3Constraint, SubmapSim3Rejection>,
) -> bool where
    S: Fn(&AlignmentTask) -> SceneGeometry,
    F: Fn(&AlignmentTask, &Vec<usize>) -> Option<Sim3Fit>,
    M: Fn(&Vec<Scalar>) -> Scalar,
    R: Fn(usize, usize) -> Scalar,
    Q: Fn(&AlignmentTask, &Sim3Fit, &Vec<usize>, Scalar) -> FitQuality,
{
    exists|hypotheses: Seq<Hypothesis>, ratio: Scalar, refit: Option<Sim3Fit>|
        {
            &&& #[trigger] are_hypotheses_of(
                hypotheses,
                samples,
                task,
                scene.inlier_threshold,
                numerics,
            )
            &&& #[trigger] consensus_verdict(
                task,
                scene,
                best_consensus(
                    task.kind,
                    hypotheses,
                    scene.inlier_threshold,
                    task.config,
                ).inliers,
                ratio,
                refit,
                numerics,
                result,
            )
        }
}

fn check_finite(matches: &Vec<SubmapPointMatch>) -> (finite: bool)
    ensures
        finite == matches_finite(matches@),
{
    let mut k: usize = 0;
    while k < matches.len()
        invariant
            k <= matches.len(),
            forall|j: int|
                0 <= j < k ==> (#[trigger] matches[j]).source_point.finite()
                    && matches[j].target_point.finite(),
        decreases matches.len() - k,
    {
        if !matches[k].source_point.is_finite() || !matches[k].target_point.is_finite() {
            return false;
        }
        k += 1;
    }
    true
}

fn check_unique(matches: &Vec<SubmapPointMatch>) -> (unique: bool)
    ensures
        unique == matches_unique(matches@),
{
    let mut i: usize = 0;
    while i < matches.len()
        invariant
            i <= matches.len(),
            matches_unique(matches@.take(i as int)),
        decreases matches.len() - i,
    {
        let mut j: usize = 0;
        while j < i
            invariant
                j <= i < matches.len(),
                forall|k: int|
                    0 <= k < j ==> (#[trigger] matches[k]).source_landmark_id
                        != matches[i as int].source_landmark_id && matches[k].target_landmark_id
                        != matches[i as int].target_landmark_id,
            decreases i - j,
        {
            if matches[j].source_landmark_id == matches[i].source_landmark_id
                || matches[j].target_landmark_id == matches[i].target_landmark_id {
                assert(!matches_unique(matches@)) by {
                    let a = matches@[j as int];
                    let b = matches@[i as int];
                }
                return false;
            }
            j += 1;
        }
        proof {
            let shorter = matches@.take(i as int);
            let longer = matches@.take(i + 1);
            assert forall|a: int, b: int| 0 <= a < b < longer.len() implies (
            #[trigger] longer[a]).source_landmark_id != (#[trigger] longer[b]).source_landmark_id
                && longer[a].target_landmark_id != longer[b].target_landmark_id by {
                if b < i {
                    assert(shorter[a] == longer[a]);
                    assert(shorter[b] == longer[b]);
                } else {
                    assert(matches[a] == longer[a]);
                }
            }
        }
        i += 1;
    }
    assert(matches@.take(matches.len() as int) =~= matches@);
    true
}

/// The first rule on the inputs that is broken.
pub fn check_inputs(
    kind: AlignmentKind,
    matches: &Vec<SubmapPointMatch>,
    rotation: &Quaternion,
    config: &SubmapSim3AlignmentConfig,
) -> (reason: Option<SubmapSim3RejectionReason>)
    ensures
        reason == input_gate(kind, matches@, *rotation, *config),
{
    let required: usize = if config.min_correspondences >= 3 { config.min_correspondences } else { 3 };
    if matches.len() < required {
        return Some(SubmapSim3RejectionReason::TooFewCorrespondences);
    }
    if (kind == AlignmentKind::UnitScale && !rotation.is_finite()) || !check_finite(matches) {
        return Some(SubmapSim3RejectionReason::NonFinitePoint);
    }
    if !check_unique(matches) {
        return Some(SubmapSim3RejectionReason::NonUniqueCorrespondences);
    }
    if kind == AlignmentKind::UnitScale && !config.valid_scale(Scalar::one()) {
        return Some(SubmapSim3RejectionReason::ScaleOutOfBounds);
    }
    None
}

/// The first rule on the geometry that is broken.
pub fn check_scene(
    kind: AlignmentKind,
    scene: &SceneGeometry,
    config: &SubmapSim3AlignmentConfig,
) -> (reason: Option<SubmapSim3RejectionReason>)
    ensures
        reason == scene_gate(kind, *scene, *config),
{
    if kind == AlignmentKind::Generic && scene.source_singular_ratio.lt(
        config.min_second_to_first_singular_ratio,
    ) {
        return Some(SubmapSim3RejectionReason::DegenerateSourceGeometry);
    }
    if kind == AlignmentKind::Generic && scene.target_singular_ratio.lt(
        config.min_second_to_first_singular_ratio,
    ) {
        return Some(SubmapSim3RejectionReason::DegenerateTargetGeometry);
    }
    let scale = scene.target_scene_scale;
    if !scale.is_finite() || scale.le(Scalar { bits: MIN_SCENE_SCALE_BITS }) {
        return Some(SubmapSim3RejectionReason::InvalidTargetSceneScale);
    }
    None
}

/// The matches whose residual does not exceed the threshold, in increasing order.
pub fn classify_inliers(residuals: &Vec<Scalar>, threshold: Scalar) -> (inliers: Vec<usize>)
    ensures
        inliers@ == inliers_of(residuals@, threshold),
{
    let ghost p = is_inlier(residuals@, threshold);
    let mut inliers: Vec<usize> = Vec::new();
    let mut k: usize = 0;
    while k < residuals.len()
        invariant
            k <= residuals.len(),
            p == is_inlier(residuals@, threshold),
            inliers@ == indices_where(k as nat, p),
        decreases residuals.len() - k,
    {
        if residuals[k].le(threshold) {
            inliers.push(k);
        }
        k += 1;
    }
    inliers
}

fn select_residuals(residuals: &Vec<Scalar>, indices: &Vec<usize>) -> (selected: Vec<Scalar>)
    requires
        forall|k: int| 0 <= k < indices.len() ==> (#[trigger] indices[k]) < residuals.len(),
    ensures
        selected@ == residuals_at(residuals@, indices@),
{
    let mut selected: Vec<Scalar> = Vec::new();
    let mut k: usize = 0;
    while k < indices.len()
        invariant
            k <= indices.len(),
            forall|j: int| 0 <= j < indices.len() ==> (#[trigger] indices[j]) < residuals.len(),
            selected.len() == k,
            forall|j: int| 0 <= j < k ==> #[trigger] selected[j] == residuals[indices[j] as int],
        decreases indices.len() - k,
    {
        selected.push(residuals[indices[k]]);
        k += 1;
    }
    assert(selected@ =~= residuals_at(residuals@, indices@));
    selected
}

/// Fits some of the matches.
fn fit_sample<S, F, M, R, Q>(
    task: &AlignmentTask,
    indices: &Vec<usize>,
    numerics: &AlignmentNumerics<S, F, M, R, Q>,
) -> (fit: Option<Sim3Fit>) where
    S: Fn(&AlignmentTask) -> SceneGeometry,
    F: Fn(&AlignmentTask, &Vec<usize>) -> Option<Sim3Fit>,
    M: Fn(&Vec<Scalar>) -> Scalar,
    R: Fn(usize, usize) -> Scalar,
    Q: Fn(&AlignmentTask, &Sim3Fit, &Vec<usize>, Scalar) -> FitQuality,
    requires
        numerics.callable(),
    ensures
        numerics.fits(*task, indices@, fit),
{
    let raw = (numerics.fit)(task, indices);
    let ghost answer = raw;
    let fit = match raw {
        None => None,
        Some(found) => {
            let fitted = found.transform;
            let transform = match task.kind {
                AlignmentKind::Generic => fitted,
                AlignmentKind::FixedRotation => Sim3 {
                    rotation: task.rotation,
                    translation: fitted.translation,
                    scale: fitted.scale,
                },
                AlignmentKind::UnitScale => Sim3 {
                    rotation: task.rotation,
                    translation: fitted.translation,
                    scale: Scalar::one(),
                },
            };
            Some(Sim3Fit { transform, residuals: found.residuals })
        },
    };
    assert(fit == held_fit(*task, answer));
    fit
}

/// Tries every sample and returns the inliers of the best consensus.
fn search_consensus<S, F, M, R, Q>(
    task: &AlignmentTask,
    scene: &SceneGeometry,
    samples: &Vec<Vec<usize>>,
    numerics: &AlignmentNumerics<S, F, M, R, Q>,
) -> (found: (Vec<usize>, Ghost<Seq<Hypothesis>>)) where
    S: Fn(&AlignmentTask) -> SceneGeometry,
    F: Fn(&AlignmentTask, &Vec<usize>) -> Option<Sim3Fit>,
    M: Fn(&Vec<Scalar>) -> Scalar,
    R: Fn(usize, usize) -> Scalar,
    Q: Fn(&AlignmentTask, &Sim3Fit, &Vec<usize>, Scalar) -> FitQuality,
    requires
        numerics.callable(),
    ensures
        are_hypotheses_of(
            found.1@,
            samples@,
            *task,
            scene.inlier_threshold,
            *numerics,
        ),
        found.0@ == best_consensus(
            task.kind,
            found.1@,
            scene.inlier_threshold,
            task.config,
        ).inliers,
{
    let threshold = scene.inlier_threshold;
    let ghost mut hypotheses: Seq<Hypothesis> = Seq::empty();
    let mut best_inliers: Vec<usize> = Vec::new();
    let mut best_mean = Scalar::infinity();
    let mut k: usize = 0;
    while k < samples.len()
        invariant
            k <= samples.len(),
            numerics.callable(),
            threshold == scene.inlier_threshold,
            hypotheses.len() == k,
            forall|j: int|
                0 <= j < k ==> is_hypothesis_of(
                    #[trigger] hypotheses[j],
                    samples[j]@,
                    *task,
                    threshold,
                    *numerics,
                ),
            best_inliers@ == best_consensus(task.kind, hypotheses, threshold, task.config).inliers,
            best_mean == best_consensus(task.kind, hypotheses, threshold, task.config).mean,
        decreases samples.len() - k,
    {
        let fit = fit_sample(task, &samples[k], numerics);
        let ghost mut hypothesis = Hypothesis { fit, mean: Scalar::infinity() };
        if let Some(found) = &fit {
            if task.config.valid_scale(found.transform.scale) {
                let inliers = classify_inliers(&found.residuals, threshold);
                let mut mean = Scalar::infinity();
                if inliers.len() > 0 {
                    proof {
                        lemma_indices_where(
                            found.residuals.len() as nat,
                            is_inlier(found.residuals@, threshold),
                        );
                    }
                    let selected = select_residuals(&found.residuals, &inliers);
                    mean = (numerics.mean)(&selected);
                    assert(numerics.averages(selected@, mean));
                }
                proof {
                    hypothesis = Hypothesis { fit, mean };
                    assert(offered(*found, mean, threshold) =~= (Consensus {
                        inliers: inliers@,
                        mean,
                    }));
                }
                let wins: bool = inliers.len() > best_inliers.len() || (inliers.len()
                    == best_inliers.len() && (if task.kind == AlignmentKind::UnitScale {
                    mean.total_rank() < best_mean.total_rank()
                } else {
                    mean.lt(best_mean)
                }));
                if wins {
                    best_inliers = inliers;
                    best_mean = mean;
                }
            }
        }
        proof {
            let before = hypotheses;
            hypotheses = hypotheses.push(hypothesis);
            assert(hypotheses.drop_last() =~= before);
        }
        k += 1;
    }
    (best_inliers, Ghost(hypotheses))
}

/// A rejection after inliers were counted.
fn counted_rejection(
    reason: SubmapSim3RejectionReason,
    count: usize,
    inliers: usize,
    ratio: Scalar,
) -> (rejection: SubmapSim3Rejection)
    ensures
        forall|list: Seq<usize>|
            list.len() == inliers ==> rejection == #[trigger] counted(reason, count, list, ratio),
{
    SubmapSim3Rejection {
        reason,
        correspondence_count: count,
        inlier_count: inliers,
        inlier_ratio: ratio,
        mean_residual_ratio: None,
        rotation_disagreement_deg: None,
        leave_one_out_log_scale_mad: None,
    }
}

/// What is wrong with the size of a consensus, if anything is.
fn check_consensus(inliers: usize, ratio: Scalar, config: &SubmapSim3AlignmentConfig) -> (reason: Option<
    SubmapSim3RejectionReason,
>)
    ensures
        forall|list: Seq<usize>|
            list.len() == inliers ==> reason == #[trigger] consensus_gate(list, ratio, *config),
{
    let required: usize = if config.min_inliers >= 3 { config.min_inliers } else { 3 };
    if inliers < required {
        Some(SubmapSim3RejectionReason::TooFewInliers)
    } else if ratio.lt(config.min_inlier_ratio) {
        Some(SubmapSim3RejectionReason::LowInlierRatio)
    } else {
        None
    }
}

/// Judges the quality of the final fit.
pub fn judge_quality(
    task: &AlignmentTask,
    scene: &SceneGeometry,
    fit: &Sim3Fit,
    inliers: Vec<usize>,
    ratio: Scalar,
    quality: FitQuality,
) -> (result: Result<SubmapSim3Constraint, SubmapSim3Rejection>)
    ensures
        quality_verdict(*task, *scene, *fit, inliers@, ratio, quality, result),
{
    let count: usize = task.matches.len();
    let config = &task.config;
    let mean = quality.mean_residual_ratio;
    let mut rejection = counted_rejection(
        SubmapSim3RejectionReason::HighMeanResidual,
        count,
        inliers.len(),
        ratio,
    );
    assert(rejection == counted(
        SubmapSim3RejectionReason::HighMeanResidual,
        count,
        inliers@,
        ratio,
    ));
    rejection.mean_residual_ratio = Some(mean);
    if !mean.is_finite() || config.max_mean_residual_ratio.lt(mean) {
        return Err(rejection);
    }
    let rotation = if task.kind == AlignmentKind::Generic {
        quality.rotation_disagreement_deg
    } else {
        Scalar::zero()
    };
    rejection.rotation_disagreement_deg = Some(rotation);
    if !rotation.is_finite() || config.max_rotation_disagreement_deg.lt(rotation) {
        rejection.reason = SubmapSim3RejectionReason::RotationInconsistent;
        return Err(rejection);
    }
    let deviation = if task.kind == AlignmentKind::UnitScale {
        Scalar::zero()
    } else {
        match quality.leave_one_out_log_scale_mad {
            Some(value) => value,
            None => Scalar::infinity(),
        }
    };
    rejection.leave_one_out_log_scale_mad = Some(deviation);
    if !deviation.is_finite() || config.max_leave_one_out_log_scale_mad.lt(deviation) {
        rejection.reason = SubmapSim3RejectionReason::UnstableLeaveOneOutScale;
        return Err(rejection);
    }
    Ok(
        SubmapSim3Constraint {
            source_submap_id: task.source_submap_id,
            target_submap_id: task.target_submap_id,
            target_from_source: fit.transform,
            correspondence_count: count,
            inlier_match_indices: inliers,
            inlier_ratio: ratio,
            mean_residual_ratio: mean,
            rotation_disagreement_deg: rotation,
            leave_one_out_log_scale_mad: deviation,
            target_scene_scale: scene.target_scene_scale,
        },
    )
}

/// Gates, fits and judges the final inliers.
fn judge_final_inliers<S, F, M, R, Q>(
    task: &AlignmentTask,
    scene: &SceneGeometry,
    inliers: Vec<usize>,
    numerics: &AlignmentNumerics<S, F, M, R, Q>,
) -> (result: Result<SubmapSim3Constraint, SubmapSim3Rejection>) where
    S: Fn(&AlignmentTask) -> SceneGeometry,
    F: Fn(&AlignmentTask, &Vec<usize>) -> Option<Sim3Fit>,
    M: Fn(&Vec<Scalar>) -> Scalar,
    R: Fn(usize, usize) -> Scalar,
    Q: Fn(&AlignmentTask, &Sim3Fit, &Vec<usize>, Scalar) -> FitQuality,
    requires
        numerics.callable(),
    ensures
        exists|ratio: Scalar, fit: Option<Sim3Fit>, quality: FitQuality| #[trigger]
            final_verdict(
                *task,
                *scene,
                inliers@,
                ratio,
                fit,
                quality,
                *numerics,
                result,
            ),
{
    let ghost list = inliers@;
    let ghost no_quality = FitQuality {
        mean_residual_ratio: Scalar::zero(),
        rotation_disagreement_deg: Scalar::zero(),
        leave_one_out_log_scale_mad: None,
    };
    let count: usize = task.matches.len();
    let ratio = (numerics.fraction)(inliers.len(), count);
    if let Some(reason) = check_consensus(inliers.len(), ratio, &task.config) {
        let rejection = counted_rejection(reason, count, inliers.len(), ratio);
        proof {
            assert(consensus_gate(list, ratio, task.config) == Some(reason));
            assert(rejection == counted(reason, count, list, ratio));
            assert(final_verdict(
                *task,
                *scene,
                list,
                ratio,
                None,
                no_quality,
                *numerics,
                Err::<SubmapSim3Constraint, _>(rejection),
            ));
        }
        return Err(rejection);
    }
    assert(consensus_gate(list, ratio, task.config) is None);
    let fit = fit_sample(task, &inliers, numerics);
    let ghost the_fit = fit;
    let reason = match &fit {
        None => Some(SubmapSim3RejectionReason::NoRobustFit),
        Some(found) => if task.config.valid_scale(found.transform.scale) {
            None
        } else {
            Some(SubmapSim3RejectionReason::ScaleOutOfBounds)
        },
    };
    if let Some(failed) = reason {
        let rejection = counted_rejection(failed, count, inliers.len(), ratio);
        proof {
            assert(rejection == counted(failed, count, list, ratio));
            assert(final_verdict(
                *task,
                *scene,
                list,
                ratio,
                fit,
                no_quality,
                *numerics,
                Err::<SubmapSim3Constraint, _>(rejection),
            ));
        }
        return Err(rejection);
    }
    match fit {
        Some(found) => {
            let quality = (numerics.quality)(
                task,
                &found,
                &inliers,
                scene.target_scene_scale,
            );
            assert(numerics.rates(
                *task,
                found,
                list,
                scene.target_scene_scale,
                quality,
            ));
            let result = judge_quality(task, scene, &found, inliers, ratio, quality);
            assert(final_verdict(
                *task,
                *scene,
                list,
                ratio,
                the_fit,
                quality,
                *numerics,
                result,
            ));
            result
        },
        None => Err(SubmapSim3Rejection::early(SubmapSim3RejectionReason::NoRobustFit, count)),
    }
}

/// Gates and refits the winning consensus, and classifies the matches anew.
fn judge_consensus<S, F, M, R, Q>(
    task: &AlignmentTask,
    scene: &SceneGeometry,
    best: Vec<usize>,
    numerics: &AlignmentNumerics<S, F, M, R, Q>,
) -> (result: Result<SubmapSim3Constraint, SubmapSim3Rejection>) where
    S: Fn(&AlignmentTask) -> SceneGeometry,
    F: Fn(&AlignmentTask, &Vec<usize>) -> Option<Sim3Fit>,
    M: Fn(&Vec<Scalar>) -> Scalar,
    R: Fn(usize, usize) -> Scalar,
    Q: Fn(&AlignmentTask, &Sim3Fit, &Vec<usize>, Scalar) -> FitQuality,
    requires
        numerics.callable(),
    ensures
        exists|ratio: Scalar, refit: Option<Sim3Fit>| #[trigger]
            consensus_verdict(*task, *scene, best@, ratio, refit, *numerics, result),
{
    let ghost list = best@;
    let count: usize = task.matches.len();
    if best.len() == 0 {
        let rejection = SubmapSim3Rejection::early(SubmapSim3RejectionReason::NoRobustFit, count);
        assert(consensus_verdict(
            *task,
            *scene,
            list,
            Scalar::zero(),
            None,
            *numerics,
            Err::<SubmapSim3Constraint, _>(rejection),
        ));
        return Err(rejection);
    }
    let ratio = (numerics.fraction)(best.len(), count);
    if let Some(reason) = check_consensus(best.len(), ratio, &task.config) {
        let rejection = counted_rejection(reason, count, best.len(), ratio);
        proof {
            assert(consensus_gate(list, ratio, task.config) == Some(reason));
            assert(rejection == counted(reason, count, list, ratio));
            assert(consensus_verdict(
                *task,
                *scene,
                list,
                ratio,
                None,
                *numerics,
                Err::<SubmapSim3Constraint, _>(rejection),
            ));
        }
        return Err(rejection);
    }
    assert(consensus_gate(list, ratio, task.config) is None);
    let refit = fit_sample(task, &best, numerics);
    let reason = match &refit {
        None => Some(SubmapSim3RejectionReason::NoRobustFit),
        Some(found) => if task.config.valid_scale(found.transform.scale) {
            None
        } else {
            Some(SubmapSim3RejectionReason::ScaleOutOfBounds)
        },
    };
    if let Some(failed) = reason {
        let rejection = counted_rejection(failed, count, best.len(), ratio);
        proof {
            assert(rejection == counted(failed, count, list, ratio));
            assert(consensus_verdict(
                *task,
                *scene,
                list,
                ratio,
                refit,
                *numerics,
                Err::<SubmapSim3Constraint, _>(rejection),
            ));
        }
        return Err(rejection);
    }
    match &refit {
        Some(found) => {
            let inliers = classify_inliers(&found.residuals, scene.inlier_threshold);
            let result = judge_final_inliers(task, scene, inliers, numerics);
            assert(consensus_verdict(*task, *scene, list, ratio, refit, *numerics, result));
            result
        },
        None => Err(SubmapSim3Rejection::early(SubmapSim3RejectionReason::NoRobustFit, count)),
    }
}

/// Robustly aligns matches with the given samples: every sample gives a hypothesis, the
/// one with the largest consensus is refitted to it, the matches are classified anew,
/// and the final fit has to pass the gates.
pub fn align_with_samples<S, F, M, R, Q>(
    task: &AlignmentTask,
    samples: &Vec<Vec<usize>>,
    numerics: &AlignmentNumerics<S, F, M, R, Q>,
) -> (result: Result<SubmapSim3Constraint, SubmapSim3Rejection>) where
    S: Fn(&AlignmentTask) -> SceneGeometry,
    F: Fn(&AlignmentTask, &Vec<usize>) -> Option<Sim3Fit>,
    M: Fn(&Vec<Scalar>) -> Scalar,
    R: Fn(usize, usize) -> Scalar,
    Q: Fn(&AlignmentTask, &Sim3Fit, &Vec<usize>, Scalar) -> FitQuality,
    requires
        numerics.callable(),
    ensures
        is_alignment(*task, samples@, *numerics, result),
        result matches Ok(constraint) ==> holds_what_is_given(*task, constraint),
{
    let count: usize = task.matches.len();
    if let Some(reason) = check_inputs(task.kind, task.matches, &task.rotation, &task.config) {
        return Err(SubmapSim3Rejection::early(reason, count));
    }
    let scene = (numerics.scene)(task);
    if let Some(reason) = check_scene(task.kind, &scene, &task.config) {
        return Err(SubmapSim3Rejection::early(reason, count));
    }
    let (best, Ghost(hypotheses)) = search_consensus(task, &scene, samples, numerics);
    let result = judge_consensus(task, &scene, best, numerics);
    assert(is_searched(*task, scene, samples@, *numerics, result));
    proof {
        if result is Ok {
            admitted_constraints_passed_every_gate(*task, samples@, *numerics, result->Ok_0);
        }
    }
    result
}

/// `result` is what the estimator makes of random samples of `size` distinct matches each:
/// as many as configured, drawn in turn from a generator with the configured seed, or
/// fewer where the generator gives no further one.
pub open spec fn is_random_alignment<S, F, M, R, Q>(
    task: AlignmentTask,
    size: nat,
    numerics: AlignmentNumerics<S, F, M, R, Q>,
    result: Result<SubmapSim3Constraint, SubmapSim3Rejection>,
) -> bool where
    S: Fn(&AlignmentTask) -> SceneGeometry,
    F: Fn(&AlignmentTask, &Vec<usize>) -> Option<Sim3Fit>,
    M: Fn(&Vec<Scalar>) -> Scalar,
    R: Fn(usize, usize) -> Scalar,
    Q: Fn(&AlignmentTask, &Sim3Fit, &Vec<usize>, Scalar) -> FitQuality,
{
    exists|samples: Seq<Vec<usize>>|
        {
            &&& are_samples(samples, task.matches.len() as int, size as int)
            &&& is_drawn(
                task.matches.len() as usize,
                size,
                task.config.ransac_iterations,
                task.config.random_seed,
                samples,
            )
            &&& #[trigger] is_alignment(task, samples, numerics, result)
        }
}

/// Robustly aligns independently reconstructed source points into the target submap
/// and cross-checks the result against an independently verified rotation. Hypotheses
/// come from random triples of matches.
pub fn estimate_submap_sim3_constraint<S, F, M, R, Q>(
    source_submap_id: u64,
    target_submap_id: u64,
    matches: &Vec<SubmapPointMatch>,
    essential_target_from_source_rotation: &Quaternion,
    config: &SubmapSim3AlignmentConfig,
    numerics: &AlignmentNumerics<S, F, M, R, Q>,
) -> (result: Result<SubmapSim3Constraint, SubmapSim3Rejection>) where
    S: Fn(&AlignmentTask) -> SceneGeometry,
    F: Fn(&AlignmentTask, &Vec<usize>) -> Option<Sim3Fit>,
    M: Fn(&Vec<Scalar>) -> Scalar,
    R: Fn(usize, usize) -> Scalar,
    Q: Fn(&AlignmentTask, &Sim3Fit, &Vec<usize>, Scalar) -> FitQuality,
    requires
        numerics.callable(),
    ensures
        is_random_alignment(
            AlignmentTask {
                kind: AlignmentKind::Generic,
                source_submap_id,
                target_submap_id,
                matches,
                rotation: *essential_target_from_source_rotation,
                config: *config,
            },
            3,
            *numerics,
            result,
        ),
{
    let task = AlignmentTask {
        kind: AlignmentKind::Generic,
        source_submap_id,
        target_submap_id,
        matches,
        rotation: *essential_target_from_source_rotation,
        config: *config,
    };
    let samples = draw_triples(matches.len(), config.ransac_iterations, config.random_seed);
    align_with_samples(&task, &samples, numerics)
}

/// No hypothesis has more inliers than the winning one, and none with as many has a
/// smaller mean residual.
pub proof fn best_consensus_is_unbeaten(
    kind: AlignmentKind,
    hypotheses: Seq<Hypothesis>,
    threshold: Scalar,
    config: SubmapSim3AlignmentConfig,
    k: int,
)
    requires
        0 <= k < hypotheses.len(),
        hypotheses[k].fit matches Some(fit) && config.scale_valid(fit.transform.scale),
        forall|j: int| 0 <= j < hypotheses.len() ==> !(#[trigger] hypotheses[j]).mean.is_nan(),
    ensures
        !beats(
            kind,
            offered(hypotheses[k].fit->0, hypotheses[k].mean, threshold),
            best_consensus(kind, hypotheses, threshold, config),
        ),
    decreases hypotheses.len(),
{
    let shorter = hypotheses.drop_last();
    let best = best_consensus(kind, shorter, threshold, config);
    lemma_consensus_mean_is_a_number(kind, shorter, threshold, config);
    assert(!hypotheses[hypotheses.len() - 1].mean.is_nan());
    if k < shorter.len() {
        assert(shorter[k] == hypotheses[k]);
        assert forall|j: int| 0 <= j < shorter.len() implies !(
        #[trigger] shorter[j]).mean.is_nan() by {
            assert(shorter[j] == hypotheses[j]);
        }
        best_consensus_is_unbeaten(kind, shorter, threshold, config, k);
    }
}

proof fn lemma_consensus_mean_is_a_number(
    kind: AlignmentKind,
    hypotheses: Seq<Hypothesis>,
    threshold: Scalar,
    config: SubmapSim3AlignmentConfig,
)
    requires
        forall|j: int| 0 <= j < hypotheses.len() ==> !(#[trigger] hypotheses[j]).mean.is_nan(),
    ensures
        !best_consensus(kind, hypotheses, threshold, config).mean.is_nan(),
    decreases hypotheses.len(),
{
    if hypotheses.len() > 0 {
        let shorter = hypotheses.drop_last();
        assert forall|j: int| 0 <= j < shorter.len() implies !(
        #[trigger] shorter[j]).mean.is_nan() by {
            assert(shorter[j] == hypotheses[j]);
        }
        lemma_consensus_mean_is_a_number(kind, shorter, threshold, config);
        assert(!hypotheses[hypotheses.len() - 1].mean.is_nan());
    }
}

/// A given rotation is the constraint's, without disagreement; the scale is one, without
/// deviation, where only a shift was sought.
pub open spec fn holds_what_is_given(task: AlignmentTask, constraint: SubmapSim3Constraint) -> bool {
    &&& task.kind !is Generic ==> constraint.target_from_source.rotation == task.rotation
        && constraint.rotation_disagreement_deg == Scalar::zero()
    &&& task.kind is UnitScale ==> constraint.target_from_source.scale == Scalar::one()
        && constraint.leave_one_out_log_scale_mad == Scalar::zero()
}

/// A constraint that was admitted has passed every gate: enough finite matches of
/// distinct landmarks, enough inliers, a scale within bounds, and a mean residual, a
/// rotation disagreement and a scale deviation that are finite and within bounds. Its
/// inliers are matches, distinct and listed in increasing order. A rotation that was given
/// is the rotation of the constraint, and its scale is one where no scale was sought.
pub proof fn admitted_constraints_passed_every_gate<S, F, M, R, Q>(
    task: AlignmentTask,
    samples: Seq<Vec<usize>>,
    numerics: AlignmentNumerics<S, F, M, R, Q>,
    constraint: SubmapSim3Constraint,
) where
    S: Fn(&AlignmentTask) -> SceneGeometry,
    F: Fn(&AlignmentTask, &Vec<usize>) -> Option<Sim3Fit>,
    M: Fn(&Vec<Scalar>) -> Scalar,
    R: Fn(usize, usize) -> Scalar,
    Q: Fn(&AlignmentTask, &Sim3Fit, &Vec<usize>, Scalar) -> FitQuality,
    requires
        numerics.callable(),
        is_alignment(task, samples, numerics, Ok(constraint)),
    ensures
        holds_what_is_given(task, constraint),
        forall|i: int|
            0 <= i < constraint.inlier_match_indices.len()
                ==> (#[trigger] constraint.inlier_match_indices[i]) < task.matches.len(),
        constraint.correspondence_count == task.matches.len() >= task.config.required_matches(),
        matches_finite(task.matches@),
        matches_unique(task.matches@),
        constraint.inlier_match_indices.len() >= task.config.required_inliers(),
        !constraint.inlier_ratio.lt(task.config.min_inlier_ratio),
        task.config.scale_valid(constraint.target_from_source.scale),
        passes(constraint.mean_residual_ratio, task.config.max_mean_residual_ratio),
        passes(constraint.rotation_disagreement_deg, task.config.max_rotation_disagreement_deg),
        passes(
            constraint.leave_one_out_log_scale_mad,
            task.config.max_leave_one_out_log_scale_mad,
        ),
        forall|i: int, j: int|
            0 <= i < j < constraint.inlier_match_indices.len()
                ==> constraint.inlier_match_indices[i] < constraint.inlier_match_indices[j],
{
    let result: Result<SubmapSim3Constraint, SubmapSim3Rejection> = Ok(constraint);
    let scene = choose|scene: SceneGeometry| #[trigger]
        call_ensures(numerics.scene, (&task,), scene) && match scene_gate(
            task.kind,
            scene,
            task.config,
        ) {
            Some(reason) => result == Err::<SubmapSim3Constraint, _>(
                SubmapSim3Rejection::early(reason, task.matches.len() as usize),
            ),
            None => is_searched(task, scene, samples, numerics, result),
        };
    assert(is_searched(task, scene, samples, numerics, result));
    let (hypotheses, ratio, refit) = choose|
        hypotheses: Seq<Hypothesis>,
        ratio: Scalar,
        refit: Option<Sim3Fit>,
    |
        {
            &&& #[trigger] are_hypotheses_of(
                hypotheses,
                samples,
                task,
                scene.inlier_threshold,
                numerics,
            )
            &&& #[trigger] consensus_verdict(
                task,
                scene,
                best_consensus(
                    task.kind,
                    hypotheses,
                    scene.inlier_threshold,
                    task.config,
                ).inliers,
                ratio,
                refit,
                numerics,
                result,
            )
        };
    let residuals = refit->0.residuals;
    let inliers = inliers_of(residuals@, scene.inlier_threshold);
    lemma_indices_where(
        residuals.len() as nat,
        is_inlier(residuals@, scene.inlier_threshold),
    );
    let (last_ratio, fit, quality) = choose|
        last_ratio: Scalar,
        fit: Option<Sim3Fit>,
        quality: FitQuality,
    | #[trigger]
        final_verdict(task, scene, inliers, last_ratio, fit, quality, numerics, result);
    assert(quality_verdict(task, scene, fit->0, inliers, last_ratio, quality, result));
    assert(residuals.len() == task.matches.len());
}

/// Two tasks ask the same.
pub open spec fn tasks_alike(left: AlignmentTask, right: AlignmentTask) -> bool {
    &&& left.kind == right.kind
    &&& left.source_submap_id == right.source_submap_id
    &&& left.target_submap_id == right.target_submap_id
    &&& left.matches@ == right.matches@
    &&& left.rotation == right.rotation
    &&& left.config == right.config
}

/// Two fits are the same, or both are missing.
pub open spec fn fits_alike(left: Option<Sim3Fit>, right: Option<Sim3Fit>) -> bool {
    match (left, right) {
        (Some(a), Some(b)) => a.transform == b.transform && a.residuals@ == b.residuals@,
        (None, None) => true,
        _ => false,
    }
}

/// Two constraints are the same.
pub open spec fn constraints_alike(
    left: SubmapSim3Constraint,
    right: SubmapSim3Constraint,
) -> bool {
    &&& left.source_submap_id == right.source_submap_id
    &&& left.target_submap_id == right.target_submap_id
    &&& left.target_from_source == right.target_from_source
    &&& left.correspondence_count == right.correspondence_count
    &&& left.inlier_match_indices@ == right.inlier_match_indices@
    &&& left.inlier_ratio == right.inlier_ratio
    &&& left.mean_residual_ratio == right.mean_residual_ratio
    &&& left.rotation_disagreement_deg == right.rotation_disagreement_deg
    &&& left.leave_one_out_log_scale_mad == right.leave_one_out_log_scale_mad
    &&& left.target_scene_scale == right.target_scene_scale
}

/// Two results are the same.
pub open spec fn results_alike(
    left: Result<SubmapSim3Constraint, SubmapSim3Rejection>,
    right: Result<SubmapSim3Constraint, SubmapSim3Rejection>,
) -> bool {
    match (left, right) {
        (Ok(a), Ok(b)) => constraints_alike(a, b),
        (Err(a), Err(b)) => a == b,
        _ => false,
    }
}

impl<S, F, M, R, Q> AlignmentNumerics<S, F, M, R, Q> where
    S: Fn(&AlignmentTask) -> SceneGeometry,
    F: Fn(&AlignmentTask, &Vec<usize>) -> Option<Sim3Fit>,
    M: Fn(&Vec<Scalar>) -> Scalar,
    R: Fn(usize, usize) -> Scalar,
    Q: Fn(&AlignmentTask, &Sim3Fit, &Vec<usize>, Scalar) -> FitQuality,
 {
    /// The functions answer the same to the same questions.
    pub open spec fn answers_alike(self) -> bool {
        &&& forall|a: AlignmentTask, b: AlignmentTask, x: SceneGeometry, y: SceneGeometry|
            tasks_alike(a, b) && #[trigger] call_ensures(self.scene, (&a,), x) && #[trigger]
            call_ensures(self.scene, (&b,), y) ==> x == y
        &&& forall|
            a: AlignmentTask,
            b: AlignmentTask,
            i: Vec<usize>,
            j: Vec<usize>,
            x: Option<Sim3Fit>,
            y: Option<Sim3Fit>,
        |
            tasks_alike(a, b) && i@ == j@ && #[trigger] call_ensures(self.fit, (&a, &i), x)
                && #[trigger] call_ensures(self.fit, (&b, &j), y) ==> fits_alike(x, y)
        &&& forall|i: Vec<Scalar>, j: Vec<Scalar>, x: Scalar, y: Scalar|
            i@ == j@ && #[trigger] call_ensures(self.mean, (&i,), x) && #[trigger] call_ensures(
                self.mean,
                (&j,),
                y,
            ) ==> x == y
        &&& forall|part: usize, whole: usize, x: Scalar, y: Scalar| #[trigger]
            call_ensures(self.fraction, (part, whole), x) && #[trigger] call_ensures(
                self.fraction,
                (part, whole),
                y,
            ) ==> x == y
        &&& forall|
            a: AlignmentTask,
            b: AlignmentTask,
            f: Sim3Fit,
            g: Sim3Fit,
            i: Vec<usize>,
            j: Vec<usize>,
            scale: Scalar,
            x: FitQuality,
            y: FitQuality,
        |
            tasks_alike(a, b) && fits_alike(Some(f), Some(g)) && i@ == j@ && #[trigger]
            call_ensures(self.quality, (&a, &f, &i, scale), x) && #[trigger] call_ensures(
                self.quality,
                (&b, &g, &j, scale),
                y,
            ) ==> x == y
    }
}

proof fn lemma_fits_alike<S, F, M, R, Q>(
    left: AlignmentTask,
    right: AlignmentTask,
    indices: Seq<usize>,
    numerics: AlignmentNumerics<S, F, M, R, Q>,
    left_fit: Option<Sim3Fit>,
    right_fit: Option<Sim3Fit>,
) where
    S: Fn(&AlignmentTask) -> SceneGeometry,
    F: Fn(&AlignmentTask, &Vec<usize>) -> Option<Sim3Fit>,
    M: Fn(&Vec<Scalar>) -> Scalar,
    R: Fn(usize, usize) -> Scalar,
    Q: Fn(&AlignmentTask, &Sim3Fit, &Vec<usize>, Scalar) -> FitQuality,

    requires
        numerics.answers_alike(),
        tasks_alike(left, right),
        numerics.fits(left, indices, left_fit),
        numerics.fits(right, indices, right_fit),
    ensures
        fits_alike(left_fit, right_fit),
{
    let (i, x) = choose|list: Vec<usize>, raw: Option<Sim3Fit>|
        list@ == indices && #[trigger] call_ensures(numerics.fit, (&left, &list), raw) && left_fit
            == held_fit(left, raw);
    let (j, y) = choose|list: Vec<usize>, raw: Option<Sim3Fit>|
        list@ == indices && #[trigger] call_ensures(numerics.fit, (&right, &list), raw)
            && right_fit == held_fit(right, raw);
    assert(fits_alike(x, y));
}

/// Two hypotheses are the same, as far as they count.
spec fn hypotheses_alike(
    left: Hypothesis,
    right: Hypothesis,
    threshold: Scalar,
    config: SubmapSim3AlignmentConfig,
) -> bool {
    &&& fits_alike(left.fit, right.fit)
    &&& left.fit matches Some(fit) ==> {
        config.scale_valid(fit.transform.scale) && inliers_of(fit.residuals@, threshold).len() > 0
            ==> left.mean == right.mean
    }
}

proof fn lemma_hypotheses_alike<S, F, M, R, Q>(
    left: AlignmentTask,
    right: AlignmentTask,
    sample: Seq<usize>,
    threshold: Scalar,
    numerics: AlignmentNumerics<S, F, M, R, Q>,
    l: Hypothesis,
    r: Hypothesis,
) where
    S: Fn(&AlignmentTask) -> SceneGeometry,
    F: Fn(&AlignmentTask, &Vec<usize>) -> Option<Sim3Fit>,
    M: Fn(&Vec<Scalar>) -> Scalar,
    R: Fn(usize, usize) -> Scalar,
    Q: Fn(&AlignmentTask, &Sim3Fit, &Vec<usize>, Scalar) -> FitQuality,

    requires
        numerics.answers_alike(),
        tasks_alike(left, right),
        is_hypothesis_of(l, sample, left, threshold, numerics),
        is_hypothesis_of(r, sample, right, threshold, numerics),
    ensures
        hypotheses_alike(l, r, threshold, left.config),
{
    lemma_fits_alike(left, right, sample, numerics, l.fit, r.fit);
    if let Some(fit) = l.fit {
        let inliers = inliers_of(fit.residuals@, threshold);
        if left.config.scale_valid(fit.transform.scale) && inliers.len() > 0 {
            let residuals = residuals_at(fit.residuals@, inliers);
            assert(numerics.averages(residuals, l.mean));
            assert(numerics.averages(residuals, r.mean));
            let i = choose|list: Vec<Scalar>|
                list@ == residuals && #[trigger] call_ensures(numerics.mean, (&list,), l.mean);
            let j = choose|list: Vec<Scalar>|
                list@ == residuals && #[trigger] call_ensures(numerics.mean, (&list,), r.mean);
            assert(l.mean == r.mean);
        }
    }
}

proof fn lemma_best_consensus_alike(
    kind: AlignmentKind,
    left: Seq<Hypothesis>,
    right: Seq<Hypothesis>,
    threshold: Scalar,
    config: SubmapSim3AlignmentConfig,
)
    requires
        left.len() == right.len(),
        forall|k: int|
            0 <= k < left.len() ==> hypotheses_alike(
                #[trigger] left[k],
                right[k],
                threshold,
                config,
            ),
    ensures
        best_consensus(kind, left, threshold, config) == best_consensus(
            kind,
            right,
            threshold,
            config,
        ),
    decreases left.len(),
{
    if left.len() > 0 {
        assert forall|k: int| 0 <= k < left.len() - 1 implies hypotheses_alike(
            #[trigger] left.drop_last()[k],
            right.drop_last()[k],
            threshold,
            config,
        ) by {
            assert(left[k] == left.drop_last()[k]);
        }
        lemma_best_consensus_alike(kind, left.drop_last(), right.drop_last(), threshold, config);
        assert(hypotheses_alike(left[left.len() - 1], right[left.len() - 1], threshold, config));
    }
}

proof fn lemma_final_alike<S, F, M, R, Q>(
    left: AlignmentTask,
    right: AlignmentTask,
    scene: SceneGeometry,
    inliers: Seq<usize>,
    numerics: AlignmentNumerics<S, F, M, R, Q>,
    left_result: Result<SubmapSim3Constraint, SubmapSim3Rejection>,
    right_result: Result<SubmapSim3Constraint, SubmapSim3Rejection>,
) where
    S: Fn(&AlignmentTask) -> SceneGeometry,
    F: Fn(&AlignmentTask, &Vec<usize>) -> Option<Sim3Fit>,
    M: Fn(&Vec<Scalar>) -> Scalar,
    R: Fn(usize, usize) -> Scalar,
    Q: Fn(&AlignmentTask, &Sim3Fit, &Vec<usize>, Scalar) -> FitQuality,

    requires
        numerics.answers_alike(),
        tasks_alike(left, right),
        exists|ratio: Scalar, fit: Option<Sim3Fit>, quality: FitQuality| #[trigger]
            final_verdict(left, scene, inliers, ratio, fit, quality, numerics, left_result),
        exists|ratio: Scalar, fit: Option<Sim3Fit>, quality: FitQuality| #[trigger]
            final_verdict(right, scene, inliers, ratio, fit, quality, numerics, right_result),
    ensures
        results_alike(left_result, right_result),
{
    let (ratio, left_fit, left_quality) = choose|
        ratio: Scalar,
        fit: Option<Sim3Fit>,
        quality: FitQuality,
    | #[trigger]
        final_verdict(left, scene, inliers, ratio, fit, quality, numerics, left_result);
    let (other, right_fit, right_quality) = choose|
        ratio: Scalar,
        fit: Option<Sim3Fit>,
        quality: FitQuality,
    | #[trigger]
        final_verdict(right, scene, inliers, ratio, fit, quality, numerics, right_result);
    assert(left.matches.len() == right.matches.len());
    assert(ratio == other);
    if consensus_gate(inliers, ratio, left.config) is None {
        lemma_fits_alike(left, right, inliers, numerics, left_fit, right_fit);
        if fit_gate(left_fit, left.config) is None {
            let scale = scene.target_scene_scale;
            assert(numerics.rates(left, left_fit->0, inliers, scale, left_quality));
            assert(numerics.rates(right, right_fit->0, inliers, scale, right_quality));
            let i = choose|list: Vec<usize>| list@ == inliers && #[trigger]
                call_ensures(numerics.quality, (&left, &left_fit->0, &list, scale), left_quality);
            let j = choose|list: Vec<usize>| list@ == inliers && #[trigger]
                call_ensures(
                    numerics.quality,
                    (&right, &right_fit->0, &list, scale),
                    right_quality,
                );
            assert(left_quality == right_quality);
        }
    }
}

proof fn lemma_verdicts_alike<S, F, M, R, Q>(
    left: AlignmentTask,
    right: AlignmentTask,
    scene: SceneGeometry,
    best: Seq<usize>,
    ratio: Scalar,
    left_refit: Option<Sim3Fit>,
    other: Scalar,
    right_refit: Option<Sim3Fit>,
    numerics: AlignmentNumerics<S, F, M, R, Q>,
    left_result: Result<SubmapSim3Constraint, SubmapSim3Rejection>,
    right_result: Result<SubmapSim3Constraint, SubmapSim3Rejection>,
) where
    S: Fn(&AlignmentTask) -> SceneGeometry,
    F: Fn(&AlignmentTask, &Vec<usize>) -> Option<Sim3Fit>,
    M: Fn(&Vec<Scalar>) -> Scalar,
    R: Fn(usize, usize) -> Scalar,
    Q: Fn(&AlignmentTask, &Sim3Fit, &Vec<usize>, Scalar) -> FitQuality,

    requires
        numerics.answers_alike(),
        tasks_alike(left, right),
        consensus_verdict(left, scene, best, ratio, left_refit, numerics, left_result),
        consensus_verdict(right, scene, best, other, right_refit, numerics, right_result),
    ensures
        results_alike(left_result, right_result),
{
    assert(left.matches.len() == right.matches.len());
    if best.len() > 0 {
        assert(ratio == other);
        if consensus_gate(best, ratio, left.config) is None {
            lemma_fits_alike(left, right, best, numerics, left_refit, right_refit);
            if fit_gate(left_refit, left.config) is None {
                let inliers = inliers_of(left_refit->0.residuals@, scene.inlier_threshold);
                lemma_final_alike(
                    left,
                    right,
                    scene,
                    inliers,
                    numerics,
                    left_result,
                    right_result,
                );
            }
        }
    }
}

proof fn lemma_searches_alike<S, F, M, R, Q>(
    left: AlignmentTask,
    right: AlignmentTask,
    scene: SceneGeometry,
    left_samples: Seq<Vec<usize>>,
    right_samples: Seq<Vec<usize>>,
    numerics: AlignmentNumerics<S, F, M, R, Q>,
    left_result: Result<SubmapSim3Constraint, SubmapSim3Rejection>,
    right_result: Result<SubmapSim3Constraint, SubmapSim3Rejection>,
) where
    S: Fn(&AlignmentTask) -> SceneGeometry,
    F: Fn(&AlignmentTask, &Vec<usize>) -> Option<Sim3Fit>,
    M: Fn(&Vec<Scalar>) -> Scalar,
    R: Fn(usize, usize) -> Scalar,
    Q: Fn(&AlignmentTask, &Sim3Fit, &Vec<usize>, Scalar) -> FitQuality,

    requires
        numerics.answers_alike(),
        tasks_alike(left, right),
        same_samples(left_samples, right_samples),
        is_searched(left, scene, left_samples, numerics, left_result),
        is_searched(right, scene, right_samples, numerics, right_result),
    ensures
        results_alike(left_result, right_result),
{
    let threshold = scene.inlier_threshold;
    let (l, ratio, left_refit) = choose|
        hypotheses: Seq<Hypothesis>,
        ratio: Scalar,
        refit: Option<Sim3Fit>,
    |
        {
            &&& #[trigger] are_hypotheses_of(hypotheses, left_samples, left, threshold, numerics)
            &&& #[trigger] consensus_verdict(
                left,
                scene,
                best_consensus(left.kind, hypotheses, threshold, left.config).inliers,
                ratio,
                refit,
                numerics,
                left_result,
            )
        };
    let (r, other, right_refit) = choose|
        hypotheses: Seq<Hypothesis>,
        ratio: Scalar,
        refit: Option<Sim3Fit>,
    |
        {
            &&& #[trigger] are_hypotheses_of(
                hypotheses,
                right_samples,
                right,
                threshold,
                numerics,
            )
            &&& #[trigger] consensus_verdict(
                right,
                scene,
                best_consensus(right.kind, hypotheses, threshold, right.config).inliers,
                ratio,
                refit,
                numerics,
                right_result,
            )
        };
    assert forall|k: int| 0 <= k < l.len() implies hypotheses_alike(
        #[trigger] l[k],
        r[k],
        threshold,
        left.config,
    ) by {
        assert(left_samples[k]@ == right_samples[k]@);
        assert(is_hypothesis_of(r[k], right_samples[k]@, right, threshold, numerics));
        lemma_hypotheses_alike(left, right, left_samples[k]@, threshold, numerics, l[k], r[k]);
    }
    lemma_best_consensus_alike(left.kind, l, r, threshold, left.config);
    lemma_verdicts_alike(
        left,
        right,
        scene,
        best_consensus(left.kind, l, threshold, left.config).inliers,
        ratio,
        left_refit,
        other,
        right_refit,
        numerics,
        left_result,
        right_result,
    );
}

/// The same matches with the same samples are aligned to the same result, where the
/// arithmetic answers the same to the same questions.
pub proof fn alignments_repeat<S, F, M, R, Q>(
    left: AlignmentTask,
    right: AlignmentTask,
    left_samples: Seq<Vec<usize>>,
    right_samples: Seq<Vec<usize>>,
    numerics: AlignmentNumerics<S, F, M, R, Q>,
    left_result: Result<SubmapSim3Constraint, SubmapSim3Rejection>,
    right_result: Result<SubmapSim3Constraint, SubmapSim3Rejection>,
) where
    S: Fn(&AlignmentTask) -> SceneGeometry,
    F: Fn(&AlignmentTask, &Vec<usize>) -> Option<Sim3Fit>,
    M: Fn(&Vec<Scalar>) -> Scalar,
    R: Fn(usize, usize) -> Scalar,
    Q: Fn(&AlignmentTask, &Sim3Fit, &Vec<usize>, Scalar) -> FitQuality,

    requires
        numerics.answers_alike(),
        tasks_alike(left, right),
        same_samples(left_samples, right_samples),
        is_alignment(left, left_samples, numerics, left_result),
        is_alignment(right, right_samples, numerics, right_result),
    ensures
        results_alike(left_result, right_result),
{
    assert(left.matches.len() == right.matches.len());
    if input_gate(left.kind, left.matches@, left.rotation, left.config) is None {
        let scene = choose|scene: SceneGeometry| #[trigger]
            call_ensures(numerics.scene, (&left,), scene) && match scene_gate(
                left.kind,
                scene,
                left.config,
            ) {
                Some(reason) => left_result == Err::<SubmapSim3Constraint, _>(
                    SubmapSim3Rejection::early(reason, left.matches.len() as usize),
                ),
                None => is_searched(left, scene, left_samples, numerics, left_result),
            };
        let other = choose|scene: SceneGeometry| #[trigger]
            call_ensures(numerics.scene, (&right,), scene) && match scene_gate(
                right.kind,
                scene,
                right.config,
            ) {
                Some(reason) => right_result == Err::<SubmapSim3Constraint, _>(
                    SubmapSim3Rejection::early(reason, right.matches.len() as usize),
                ),
                None => is_searched(right, scene, right_samples, numerics, right_result),
            };
        assert(scene == other);
        if scene_gate(left.kind, scene, left.config) is None {
            lemma_searches_alike(
                left,
                right,
                scene,
                left_samples,
                right_samples,
                numerics,
                left_result,
                right_result,
            );
        }
    }
}

/// One seed aligns the same matches to the same result every time, where the arithmetic
/// answers the same to the same questions and the generator repeats itself.
pub proof fn random_alignments_repeat<S, F, M, R, Q>(
    left: AlignmentTask,
    right: AlignmentTask,
    size: nat,
    numerics: AlignmentNumerics<S, F, M, R, Q>,
    left_result: Result<SubmapSim3Constraint, SubmapSim3Rejection>,
    right_result: Result<SubmapSim3Constraint, SubmapSim3Rejection>,
) where
    S: Fn(&AlignmentTask) -> SceneGeometry,
    F: Fn(&AlignmentTask, &Vec<usize>) -> Option<Sim3Fit>,
    M: Fn(&Vec<Scalar>) -> Scalar,
    R: Fn(usize, usize) -> Scalar,
    Q: Fn(&AlignmentTask, &Sim3Fit, &Vec<usize>, Scalar) -> FitQuality,

    requires
        numerics.answers_alike(),
        generator_repeats(),
        tasks_alike(left, right),
        is_random_alignment(left, size, numerics, left_result),
        is_random_alignment(right, size, numerics, right_result),
    ensures
        results_alike(left_result, right_result),
{
    let count = left.matches.len() as usize;
    let l = choose|samples: Seq<Vec<usize>>|
        {
            &&& is_drawn(
                count,
                size,
                left.config.ransac_iterations,
                left.config.random_seed,
                samples,
            )
            &&& #[trigger] is_alignment(left, samples, numerics, left_result)
        };
    let r = choose|samples: Seq<Vec<usize>>|
        {
            &&& is_drawn(
                right.matches.len() as usize,
                size,
                right.config.ransac_iterations,
                right.config.random_seed,
                samples,
            )
            &&& #[trigger] is_alignment(right, samples, numerics, right_result)
        };
    assert(left.matches.len() == right.matches.len());
    one_seed_gives_the_same_samples(
        count,
        size,
        left.config.ransac_iterations,
        left.config.random_seed,
        l,
        r,
    );
    alignments_repeat(left, right, l, r, numerics, left_result, right_result);
}

/// The value is a finite scale between the bounds.
pub open spec fn is_scale_between(scale: Scalar, least: Scalar, most: Scalar) -> bool {
    scale.is_finite() && least.le(scale) && scale.le(most)
}

/// Every coordinate of every match is finite.
pub open spec fn has_finite_points(matches: Seq<SubmapPointMatch>) -> bool {
    forall|k: int|
        0 <= k < matches.len() ==> {
            let found = #[trigger] matches[k];
            &&& found.source_point.x.is_finite() && found.source_point.y.is_finite()
                && found.source_point.z.is_finite()
            &&& found.target_point.x.is_finite() && found.target_point.y.is_finite()
                && found.target_point.z.is_finite()
        }
}

/// No landmark of either side is matched twice.
pub open spec fn has_distinct_landmarks(matches: Seq<SubmapPointMatch>) -> bool {
    forall|i: int, j: int|
        0 <= i < matches.len() && 0 <= j < matches.len() && i != j ==> (
        #[trigger] matches[i]).source_landmark_id != (#[trigger] matches[j]).source_landmark_id
            && matches[i].target_landmark_id != matches[j].target_landmark_id
}

proof fn lemma_input_specs(matches: Seq<SubmapPointMatch>)
    ensures
        matches_finite(matches) <==> has_finite_points(matches),
        matches_unique(matches) <==> has_distinct_landmarks(matches),
{
    if matches_unique(matches) {
        assert forall|i: int, j: int|
            0 <= i < matches.len() && 0 <= j < matches.len() && i != j implies (
        #[trigger] matches[i]).source_landmark_id != (#[trigger] matches[j]).source_landmark_id
            && matches[i].target_landmark_id != matches[j].target_landmark_id by {
            if j < i {
                assert(matches[j].source_landmark_id != matches[i].source_landmark_id);
            }
        }
    }
    if has_finite_points(matches) {
        assert forall|k: int| 0 <= k < matches.len() implies (
        #[trigger] matches[k]).source_point.finite() && matches[k].target_point.finite() by {
            let found = matches[k];
        }
    }
}

/// What matches are refused for before anything is computed: fewer than asked for, or fewer
/// than three; a point that is not finite, or with a fixed scale a rotation that is not; a
/// landmark that is matched twice; and with a fixed scale bounds that leave one out.
pub proof fn matches_are_refused_for_a_reason(
    kind: AlignmentKind,
    matches: Seq<SubmapPointMatch>,
    rotation: Quaternion,
    config: SubmapSim3AlignmentConfig,
)
    ensures
        ({
            let reason = input_gate(kind, matches, rotation, config);
            let enough = matches.len() >= 3 && matches.len() >= config.min_correspondences;
            let finite = has_finite_points(matches) && (kind is UnitScale ==> rotation.w.is_finite()
                && rotation.x.is_finite() && rotation.y.is_finite() && rotation.z.is_finite());
            let distinct = has_distinct_landmarks(matches);
            let scaled = kind is UnitScale ==> is_scale_between(
                Scalar::one(),
                config.min_scale,
                config.max_scale,
            );
            &&& reason is None <==> enough && finite && distinct && scaled
            &&& reason == Some(SubmapSim3RejectionReason::TooFewCorrespondences) <==> !enough
            &&& reason == Some(SubmapSim3RejectionReason::NonFinitePoint) <==> enough && !finite
            &&& reason == Some(SubmapSim3RejectionReason::NonUniqueCorrespondences) <==> enough
                && finite && !distinct
            &&& reason == Some(SubmapSim3RejectionReason::ScaleOutOfBounds) <==> enough && finite
                && distinct && !scaled
        }),
{
    lemma_input_specs(matches);
}

/// What a scene is refused for: with a free rotation, points that lie too nearly on a line on
/// either side; and in any case a scale that is not finite or not above `1e-12`.
pub proof fn scenes_are_refused_for_a_reason(
    kind: AlignmentKind,
    scene: SceneGeometry,
    config: SubmapSim3AlignmentConfig,
)
    ensures
        ({
            let reason = scene_gate(kind, scene, config);
            let least = config.min_second_to_first_singular_ratio;
            let source = kind is Generic && scene.source_singular_ratio.lt(least);
            let target = kind is Generic && scene.target_singular_ratio.lt(least);
            let scaled = scene.target_scene_scale.is_finite() && (Scalar {
                bits: 0x3D71_9799_812D_EA11,
            }).lt(scene.target_scene_scale);
            &&& reason is None <==> !source && !target && scaled
            &&& reason == Some(SubmapSim3RejectionReason::DegenerateSourceGeometry) <==> source
            &&& reason == Some(SubmapSim3RejectionReason::DegenerateTargetGeometry) <==> !source
                && target
            &&& reason == Some(SubmapSim3RejectionReason::InvalidTargetSceneScale) <==> !source
                && !target && !scaled
        }),
{
}

/// The inliers of a fit are the matches whose residual is not above the threshold, in order.
pub proof fn inliers_lie_within_the_threshold(residuals: Seq<Scalar>, threshold: Scalar, k: usize)
    requires
        residuals.len() <= usize::MAX,
    ensures
        inliers_of(residuals, threshold).contains(k) <==> k < residuals.len()
            && residuals[k as int].le(threshold),
        forall|i: int, j: int|
            0 <= i < j < inliers_of(residuals, threshold).len() ==> (#[trigger] inliers_of(
                residuals,
                threshold,
            )[i]) < #[trigger] inliers_of(residuals, threshold)[j],
        inliers_of(residuals, threshold).len() == count_where(
            residuals.len(),
            |i: int| residuals[i].le(threshold),
        ),
{
    let p = is_inlier(residuals, threshold);
    lemma_indices_where(residuals.len(), p);
    crate::sequences::lemma_count_same(
        residuals.len(),
        p,
        |i: int| residuals[i].le(threshold),
    );
    let found = inliers_of(residuals, threshold);
    if found.contains(k) {
        assert(p(found[found.index_of(k)] as int));
    }
    if k < residuals.len() && p(k as int) {
        assert(found.contains(k));
    }
}

/// The winning consensus: no hypothesis with a scale within the bounds has more matches
/// within the threshold, and none with as many has a smaller mean. The winner is a
/// hypothesis of its own, or there is none with any match within the threshold.
pub proof fn the_largest_consensus_wins(
    kind: AlignmentKind,
    hypotheses: Seq<Hypothesis>,
    threshold: Scalar,
    config: SubmapSim3AlignmentConfig,
    k: int,
) -> (winner: int)
    requires
        0 <= k < hypotheses.len(),
        forall|j: int|
            0 <= j < hypotheses.len() ==> !(#[trigger] hypotheses[j]).mean.is_nan() && (
            hypotheses[j].fit matches Some(fit) ==> fit.residuals@.len() <= usize::MAX),
    ensures
        ({
            let best = best_consensus(kind, hypotheses, threshold, config);
            &&& hypotheses[k].fit matches Some(fit) ==> (is_scale_between(
                fit.transform.scale,
                config.min_scale,
                config.max_scale,
            ) ==> {
                let count = count_where(
                    fit.residuals@.len(),
                    |i: int| fit.residuals@[i].le(threshold),
                );
                &&& count <= best.inliers.len()
                &&& count == best.inliers.len() && count > 0 ==> !hypotheses[k].mean.lt(best.mean)
            })
            &&& best.inliers.len() > 0 ==> {
                &&& 0 <= winner < hypotheses.len()
                &&& hypotheses[winner].fit matches Some(fit)
                &&& is_scale_between(fit.transform.scale, config.min_scale, config.max_scale)
                &&& best.inliers == inliers_of(fit.residuals@, threshold)
                &&& best.mean == hypotheses[winner].mean
            }
        }),
    decreases hypotheses.len(),
{
    if let Some(fit) = hypotheses[k].fit {
        if config.scale_valid(fit.transform.scale) {
            best_consensus_is_unbeaten(kind, hypotheses, threshold, config, k);
            inliers_lie_within_the_threshold(fit.residuals@, threshold, 0);
            let best = best_consensus(kind, hypotheses, threshold, config);
            crate::scalar::total_order_laws(hypotheses[k].mean, best.mean);
        }
    }
    lemma_winner(kind, hypotheses, threshold, config)
}

proof fn lemma_winner(
    kind: AlignmentKind,
    hypotheses: Seq<Hypothesis>,
    threshold: Scalar,
    config: SubmapSim3AlignmentConfig,
) -> (winner: int)
    ensures
        ({
            let best = best_consensus(kind, hypotheses, threshold, config);
            best.inliers.len() > 0 ==> {
                &&& 0 <= winner < hypotheses.len()
                &&& hypotheses[winner].fit matches Some(fit)
                &&& is_scale_between(fit.transform.scale, config.min_scale, config.max_scale)
                &&& best.inliers == inliers_of(fit.residuals@, threshold)
                &&& best.mean == hypotheses[winner].mean
            }
        }),
    decreases hypotheses.len(),
{
    if hypotheses.len() == 0 {
        0
    } else {
        let rest = hypotheses.drop_last();
        let n = rest.len() as int;
        let winner = lemma_winner(kind, rest, threshold, config);
        let before = best_consensus(kind, rest, threshold, config);
        match hypotheses.last().fit {
            Some(fit) if config.scale_valid(fit.transform.scale) => {
                if beats(kind, offered(fit, hypotheses.last().mean, threshold), before) {
                    n
                } else {
                    winner
                }
            },
            _ => winner,
        }
    }
}

/// What a constraint that was admitted keeps within: at least three matches and inliers and
/// as many as asked for, finite points of distinct landmarks, an inlier ratio that is not too
/// low, a finite scale between the bounds, and a mean residual, a rotation disagreement and a
/// scale deviation that are finite and not above their limits.
pub proof fn admitted_constraints_keep_every_limit<S, F, M, R, Q>(
    task: AlignmentTask,
    samples: Seq<Vec<usize>>,
    numerics: AlignmentNumerics<S, F, M, R, Q>,
    constraint: SubmapSim3Constraint,
) where
    S: Fn(&AlignmentTask) -> SceneGeometry,
    F: Fn(&AlignmentTask, &Vec<usize>) -> Option<Sim3Fit>,
    M: Fn(&Vec<Scalar>) -> Scalar,
    R: Fn(usize, usize) -> Scalar,
    Q: Fn(&AlignmentTask, &Sim3Fit, &Vec<usize>, Scalar) -> FitQuality,

    requires
        numerics.callable(),
        is_alignment(task, samples, numerics, Ok(constraint)),
    ensures
        constraint.correspondence_count == task.matches@.len(),
        task.matches@.len() >= 3,
        task.matches@.len() >= task.config.min_correspondences,
        has_finite_points(task.matches@),
        has_distinct_landmarks(task.matches@),
        constraint.inlier_match_indices@.len() >= 3,
        constraint.inlier_match_indices@.len() >= task.config.min_inliers,
        !constraint.inlier_ratio.lt(task.config.min_inlier_ratio),
        is_scale_between(
            constraint.target_from_source.scale,
            task.config.min_scale,
            task.config.max_scale,
        ),
        constraint.mean_residual_ratio.is_finite(),
        !task.config.max_mean_residual_ratio.lt(constraint.mean_residual_ratio),
        constraint.rotation_disagreement_deg.is_finite(),
        !task.config.max_rotation_disagreement_deg.lt(constraint.rotation_disagreement_deg),
        constraint.leave_one_out_log_scale_mad.is_finite(),
        !task.config.max_leave_one_out_log_scale_mad.lt(constraint.leave_one_out_log_scale_mad),
        !(task.kind is Generic) ==> constraint.target_from_source.rotation == task.rotation
            && constraint.rotation_disagreement_deg == Scalar::zero(),
        task.kind is UnitScale ==> constraint.target_from_source.scale == Scalar::one()
            && constraint.leave_one_out_log_scale_mad == Scalar::zero(),
{
    admitted_constraints_passed_every_gate(task, samples, numerics, constraint);
    lemma_input_specs(task.matches@);
    assert(task.matches.len() == task.matches@.len());
}

/// What a fit is refused for once it has its inliers: in turn a mean residual, a rotation
/// disagreement and a scale deviation that are not finite or above their limits. A rotation
/// that is given disagrees by nothing, a scale that is given deviates by nothing, and a
/// deviation that cannot be measured is infinite.
pub proof fn fits_are_refused_for_a_reason(
    task: AlignmentTask,
    scene: SceneGeometry,
    fit: Sim3Fit,
    inliers: Seq<usize>,
    ratio: Scalar,
    quality: FitQuality,
    result: Result<SubmapSim3Constraint, SubmapSim3Rejection>,
)
    requires
        quality_verdict(task, scene, fit, inliers, ratio, quality, result),
        inliers.len() <= usize::MAX,
    ensures
        ({
            let config = task.config;
            let mean = quality.mean_residual_ratio;
            let rotation = if task.kind is Generic {
                quality.rotation_disagreement_deg
            } else {
                Scalar::zero()
            };
            let deviation = if task.kind is UnitScale {
                Scalar::zero()
            } else {
                match quality.leave_one_out_log_scale_mad {
                    Some(value) => value,
                    None => Scalar::infinity(),
                }
            };
            let close = mean.is_finite() && !config.max_mean_residual_ratio.lt(mean);
            let turned = rotation.is_finite() && !config.max_rotation_disagreement_deg.lt(rotation);
            let steady = deviation.is_finite() && !config.max_leave_one_out_log_scale_mad.lt(
                deviation,
            );
            &&& result is Ok <==> close && turned && steady
            &&& result matches Ok(constraint) ==> {
                &&& constraint.target_from_source == fit.transform
                &&& constraint.inlier_match_indices@ == inliers
                &&& constraint.inlier_ratio == ratio
                &&& constraint.mean_residual_ratio == mean
                &&& constraint.rotation_disagreement_deg == rotation
                &&& constraint.leave_one_out_log_scale_mad == deviation
                &&& constraint.target_scene_scale == scene.target_scene_scale
                &&& constraint.source_submap_id == task.source_submap_id
                &&& constraint.target_submap_id == task.target_submap_id
            }
            &&& result matches Err(rejection) ==> {
                &&& rejection.reason == (if !close {
                    SubmapSim3RejectionReason::HighMeanResidual
                } else if !turned {
                    SubmapSim3RejectionReason::RotationInconsistent
                } else {
                    SubmapSim3RejectionReason::UnstableLeaveOneOutScale
                })
                &&& rejection.correspondence_count == task.matches@.len()
                &&& rejection.inlier_count == inliers.len()
                &&& rejection.inlier_ratio == ratio
                &&& rejection.mean_residual_ratio == Some(mean)
                &&& rejection.rotation_disagreement_deg == (if close {
                    Some(rotation)
                } else {
                    None
                })
                &&& rejection.leave_one_out_log_scale_mad == (if close && turned {
                    Some(deviation)
                } else {
                    None
                })
            }
        }),
{
    assert(task.matches.len() == task.matches@.len());
}

/// What a consensus is refused for: fewer inliers than asked for, or than three; else an
/// inlier ratio that is too low. A fit is refused where there is none, or where its scale is
/// out of bounds.
pub proof fn consensuses_are_refused_for_a_reason(
    inliers: Seq<usize>,
    ratio: Scalar,
    fit: Option<Sim3Fit>,
    config: SubmapSim3AlignmentConfig,
)
    ensures
        ({
            let few = inliers.len() < 3 || inliers.len() < config.min_inliers;
            &&& consensus_gate(inliers, ratio, config) == (if few {
                Some(SubmapSim3RejectionReason::TooFewInliers)
            } else if ratio.lt(config.min_inlier_ratio) {
                Some(SubmapSim3RejectionReason::LowInlierRatio)
            } else {
                None
            })
            &&& fit is None ==> fit_gate(fit, config) == Some(
                SubmapSim3RejectionReason::NoRobustFit,
            )
            &&& fit matches Some(found) ==> fit_gate(fit, config) == (if is_scale_between(
                found.transform.scale,
                config.min_scale,
                config.max_scale,
            ) {
                None
            } else {
                Some(SubmapSim3RejectionReason::ScaleOutOfBounds)
            })
        }),
{
}

/// A fit keeps what is given: the rotation where it is fixed, and with it a scale of one where
/// that is fixed too; the rest is as it was fitted.
pub proof fn fits_keep_what_is_given(task: AlignmentTask, raw: Sim3Fit)
    ensures
        held_fit(task, None) is None,
        (held_fit(task, Some(raw)) matches Some(held) && {
            &&& held.residuals == raw.residuals
            &&& held.transform.translation == raw.transform.translation
            &&& held.transform.rotation == (if task.kind is Generic {
                raw.transform.rotation
            } else {
                task.rotation
            })
            &&& held.transform.scale == (if task.kind is UnitScale {
                Scalar::one()
            } else {
                raw.transform.scale
            })
        }),
{
}

/// Every sample gives a hypothesis: the fit to it, keeping what is given, and, where its scale
/// is within the bounds and some match lies within the threshold, the mean of the residuals
/// that do.
pub proof fn hypotheses_follow_their_samples<S, F, M, R, Q>(
    hypotheses: Seq<Hypothesis>,
    samples: Seq<Vec<usize>>,
    task: AlignmentTask,
    threshold: Scalar,
    numerics: AlignmentNumerics<S, F, M, R, Q>,
    k: int,
) where
    S: Fn(&AlignmentTask) -> SceneGeometry,
    F: Fn(&AlignmentTask, &Vec<usize>) -> Option<Sim3Fit>,
    M: Fn(&Vec<Scalar>) -> Scalar,
    R: Fn(usize, usize) -> Scalar,
    Q: Fn(&AlignmentTask, &Sim3Fit, &Vec<usize>, Scalar) -> FitQuality,

    requires
        are_hypotheses_of(hypotheses, samples, task, threshold, numerics),
        0 <= k < samples.len(),
    ensures
        hypotheses.len() == samples.len(),
        exists|list: Vec<usize>, raw: Option<Sim3Fit>|
            list@ == samples[k]@ && #[trigger] call_ensures(numerics.fit, (&task, &list), raw)
                && hypotheses[k].fit == held_fit(task, raw),
        hypotheses[k].fit matches Some(fit) ==> (is_scale_between(
            fit.transform.scale,
            task.config.min_scale,
            task.config.max_scale,
        ) && inliers_of(fit.residuals@, threshold).len() > 0 ==> exists|list: Vec<Scalar>|
            {
                let inliers = inliers_of(fit.residuals@, threshold);
                &&& #[trigger] call_ensures(numerics.mean, (&list,), hypotheses[k].mean)
                &&& list@.len() == inliers.len()
                &&& forall|j: int|
                    0 <= j < inliers.len() ==> #[trigger] list@[j]
                        == fit.residuals@[inliers[j] as int]
            }),
{
    assert(is_hypothesis_of(hypotheses[k], samples[k]@, task, threshold, numerics));
    if let Some(fit) = hypotheses[k].fit {
        let inliers = inliers_of(fit.residuals@, threshold);
        if task.config.scale_valid(fit.transform.scale) && inliers.len() > 0 {
            let list = choose|list: Vec<Scalar>|
                list@ == residuals_at(fit.residuals@, inliers) && #[trigger] call_ensures(
                    numerics.mean,
                    (&list,),
                    hypotheses[k].mean,
                );
            assert(call_ensures(numerics.mean, (&list,), hypotheses[k].mean));
        }
    }
}

/// What an alignment goes through: the best consensus of its hypotheses is refused where it is
/// empty, too small, or cannot be fitted within the bounds; else its fit decides the inliers
/// that are judged in the end.
pub proof fn alignments_refit_the_best_consensus<S, F, M, R, Q>(
    task: AlignmentTask,
    scene: SceneGeometry,
    best: Seq<usize>,
    ratio: Scalar,
    refit: Option<Sim3Fit>,
    numerics: AlignmentNumerics<S, F, M, R, Q>,
    result: Result<SubmapSim3Constraint, SubmapSim3Rejection>,
) where
    S: Fn(&AlignmentTask) -> SceneGeometry,
    F: Fn(&AlignmentTask, &Vec<usize>) -> Option<Sim3Fit>,
    M: Fn(&Vec<Scalar>) -> Scalar,
    R: Fn(usize, usize) -> Scalar,
    Q: Fn(&AlignmentTask, &Sim3Fit, &Vec<usize>, Scalar) -> FitQuality,

    requires
        consensus_verdict(task, scene, best, ratio, refit, numerics, result),
        best.len() <= usize::MAX,
    ensures
        best.len() == 0 ==> (result matches Err(rejection) && rejection.reason
            == SubmapSim3RejectionReason::NoRobustFit && rejection.inlier_count == 0),
        best.len() > 0 ==> call_ensures(
            numerics.fraction,
            (best.len() as usize, task.matches.len()),
            ratio,
        ),
        best.len() > 0 && (best.len() < 3 || best.len() < task.config.min_inliers) ==> (
        result matches Err(rejection) && rejection.reason
            == SubmapSim3RejectionReason::TooFewInliers && rejection.inlier_count == best.len()
            && rejection.inlier_ratio == ratio),
        (result matches Ok(constraint) ==> {
            &&& best.len() >= 3
            &&& best.len() >= task.config.min_inliers
            &&& !ratio.lt(task.config.min_inlier_ratio)
            &&& numerics.fits(task, best, refit)
            &&& refit matches Some(fit)
            &&& is_scale_between(
                fit.transform.scale,
                task.config.min_scale,
                task.config.max_scale,
            )
            &&& constraint.inlier_match_indices@ == inliers_of(
                fit.residuals@,
                scene.inlier_threshold,
            )
        }),
{
}

} // verus!
