//! Lifecycle management for a sparse keyframe factor graph.
//!
//! The module separates factor proposal and lifecycle from the optimizer. The
//! proposer derives temporal, proximity, and stereo support from a
//! [`VisualMapSnapshot`]; the confidences and distances that go with it come as
//! [`MapScores`]. A learned frontend can
//! update the target correction, anisotropic information, and damping on the same
//! factor records without changing the acceptance layer.
//!
//! Single-precision quantities are held widened to double precision.
use crate::order::{
    is_stable_order, precedes, stable_order, stable_order_is_complete, stable_order_of, SortKey,
};
use crate::scalar::Scalar;
use crate::sequences::{
    contains_id, count_where, first_n, last_ids, last_n, lemma_count_same, lemma_filter_count,
    lemma_filter_insert, lemma_filter_positions, lemma_filter_take, lemma_filter_twice,
    lemma_filter_update, lemma_filters_disjoint, lemma_take_all, lists_kept, sorted_set,
    sorted_set_of,
};
use std::collections::BTreeSet;
use vstd::prelude::*;

verus! {

#[derive(Clone, Copy, Debug, PartialEq, Eq, PartialOrd, Ord, Hash, Structural)]
pub enum SparseFactorKind {
    Temporal,
    Proximity,
    Stereo,
}

impl SparseFactorKind {
    pub open spec fn rank(self) -> int {
        match self {
            SparseFactorKind::Temporal => 0,
            SparseFactorKind::Proximity => 1,
            SparseFactorKind::Stereo => 2,
        }
    }

    fn rank_number(self) -> (rank: u8)
        ensures
            rank == self.rank(),
    {
        match self {
            SparseFactorKind::Temporal => 0,
            SparseFactorKind::Proximity => 1,
            SparseFactorKind::Stereo => 2,
        }
    }
}

#[derive(Clone, Copy, Debug, PartialEq, Eq, PartialOrd, Ord, Hash, Structural)]
pub struct SparseFactorKey {
    pub from_keyframe_id: u64,
    pub to_keyframe_id: u64,
    pub kind: SparseFactorKind,
}

impl SparseFactorKey {
    /// Keys are ordered by source, by target, and by kind.
    pub open spec fn spec_before(self, other: SparseFactorKey) -> bool {
        ||| self.from_keyframe_id < other.from_keyframe_id
        ||| self.from_keyframe_id == other.from_keyframe_id && self.to_keyframe_id
            < other.to_keyframe_id
        ||| self.from_keyframe_id == other.from_keyframe_id && self.to_keyframe_id
            == other.to_keyframe_id && self.kind.rank() < other.kind.rank()
    }

    /// Whether this key comes before `other`.
    #[verifier::when_used_as_spec(spec_before)]
    pub fn before(self, other: SparseFactorKey) -> (b: bool)
        ensures
            b == self.spec_before(other),
    {
        if self.from_keyframe_id != other.from_keyframe_id {
            self.from_keyframe_id < other.from_keyframe_id
        } else if self.to_keyframe_id != other.to_keyframe_id {
            self.to_keyframe_id < other.to_keyframe_id
        } else {
            self.kind.rank_number() < other.kind.rank_number()
        }
    }

    /// The factor joins the keyframe.
    pub open spec fn touches(self, keyframe_id: u64) -> bool {
        self.from_keyframe_id == keyframe_id || self.to_keyframe_id == keyframe_id
    }
}

#[derive(Clone, Copy, Debug, PartialEq, Eq, Structural)]
pub enum SparseFactorState {
    Active,
    Inactive,
}

#[derive(Clone, Copy, Debug, PartialEq, Eq, Structural)]
pub enum SparseFactorInactiveReason {
    LowConfidence,
    WindowAge,
    ActiveBudget,
}

/// Optimizer-facing measurement carried by every edge. Geometric factors start
/// with zero correction and isotropic information; learned update operators may
/// replace these values later.
#[derive(Clone, Copy, Debug, PartialEq, Eq)]
pub struct SparseFactorMeasurement {
    pub target_correction_px: [Scalar; 2],
    pub information: [Scalar; 2],
    pub damping: Scalar,
}

/// `value` limited to the interval from zero to one; a NaN stays as it is.
pub open spec fn clamp_to_unit(value: Scalar) -> Scalar {
    if value.lt(Scalar::zero()) {
        Scalar::zero()
    } else if Scalar::one().lt(value) {
        Scalar::one()
    } else {
        value
    }
}

impl SparseFactorMeasurement {
    /// No correction, the clamped confidence as information in both directions, and
    /// the given damping.
    pub open spec fn spec_geometric(confidence: Scalar, damping: Scalar) -> Self {
        SparseFactorMeasurement {
            target_correction_px: [Scalar::zero(), Scalar::zero()],
            information: [clamp_to_unit(confidence), clamp_to_unit(confidence)],
            damping,
        }
    }

    pub open spec fn valid(self) -> bool {
        &&& self.target_correction_px[0].is_finite() && self.target_correction_px[1].is_finite()
        &&& self.information[0].is_finite() && Scalar::zero().le(self.information[0])
        &&& self.information[1].is_finite() && Scalar::zero().le(self.information[1])
        &&& self.damping.is_finite() && Scalar::zero().le(self.damping)
    }

    fn geometric(confidence: Scalar, damping: Scalar) -> (measurement: Self)
        ensures
            measurement == SparseFactorMeasurement::spec_geometric(confidence, damping),
    {
        let clamped = if confidence.lt(Scalar::zero()) {
            Scalar::zero()
        } else if Scalar::one().lt(confidence) {
            Scalar::one()
        } else {
            confidence
        };
        SparseFactorMeasurement {
            target_correction_px: [Scalar::zero(), Scalar::zero()],
            information: [clamped, clamped],
            damping,
        }
    }

    /// Every number is finite, and information and damping are not negative.
    pub fn is_valid(self) -> (b: bool)
        ensures
            b == self.valid(),
    {
        self.target_correction_px[0].is_finite() && self.target_correction_px[1].is_finite()
            && self.information[0].is_finite() && Scalar::zero().le(self.information[0])
            && self.information[1].is_finite() && Scalar::zero().le(self.information[1])
            && self.damping.is_finite() && Scalar::zero().le(self.damping)
    }
}

#[derive(Clone, Copy, Debug, PartialEq, Eq)]
pub struct SparseKeyframeFactor {
    pub key: SparseFactorKey,
    pub state: SparseFactorState,
    pub inactive_reason: Option<SparseFactorInactiveReason>,
    pub support_count: usize,
    pub confidence: Scalar,
    pub measurement: SparseFactorMeasurement,
    pub created_generation: u64,
    pub last_scored_generation: u64,
    pub inactive_since_generation: Option<u64>,
    pub low_confidence_streak: usize,
    pub update_count: u64,
}

impl SparseKeyframeFactor {
    pub open spec fn active(self) -> bool {
        self.state is Active
    }

    /// An inactive factor says why and since when; an active one does not.
    pub open spec fn coherent(self) -> bool {
        &&& self.active() ==> self.inactive_reason is None && self.inactive_since_generation is None
        &&& !self.active() ==> self.inactive_reason is Some && self.inactive_since_generation is Some
    }

    /// The factor retired for `reason`.
    pub open spec fn retired(self, reason: SparseFactorInactiveReason, generation: u64) -> Self {
        SparseKeyframeFactor {
            state: SparseFactorState::Inactive,
            inactive_reason: Some(reason),
            inactive_since_generation: Some(generation),
            ..self
        }
    }

    /// The factor in use again.
    pub open spec fn revived(self) -> Self {
        SparseKeyframeFactor {
            state: SparseFactorState::Active,
            inactive_reason: None,
            inactive_since_generation: None,
            low_confidence_streak: 0,
            ..self
        }
    }
}

#[derive(Clone, Copy, Debug, PartialEq, Eq, Structural)]
pub struct SparseFactorGraphConfig {
    /// Add bidirectional temporal edges to this many previous keyframes.
    pub temporal_radius: usize,
    /// Number of newest keyframes whose incident edges remain frontend-active.
    pub active_window_keyframes: usize,
    /// Maximum camera-centre separation for a non-temporal proximity edge.
    pub proximity_radius_meters: Scalar,
    pub proximity_min_shared_landmarks: usize,
    pub max_proximity_neighbors_per_keyframe: usize,
    /// Shared or stereo support at which geometric confidence saturates.
    pub support_saturation_count: usize,
    pub minimum_active_confidence: Scalar,
    pub reactivation_confidence: Scalar,
    /// Consecutive low-confidence rescoring passes before an edge is retired.
    pub low_confidence_patience: usize,
    pub max_active_factors: usize,
    /// Inactive factors older than this many keyframe updates are forgotten.
    pub max_inactive_age_generations: u64,
    /// Temporal continuity edges are retired by window age, not confidence.
    pub protect_temporal_from_confidence_pruning: bool,
    pub geometric_damping: Scalar,
}

impl Default for SparseFactorGraphConfig {
    /// A radius of 2.5 m, confidences of 0.15 and 0.25, a damping of 1e-4.
    fn default() -> (config: Self)
        ensures
            config == (SparseFactorGraphConfig {
                temporal_radius: 3,
                active_window_keyframes: 12,
                proximity_radius_meters: Scalar { bits: 0x4004_0000_0000_0000 },
                proximity_min_shared_landmarks: 15,
                max_proximity_neighbors_per_keyframe: 8,
                support_saturation_count: 50,
                minimum_active_confidence: Scalar { bits: 0x3FC3_3333_4000_0000 },
                reactivation_confidence: Scalar { bits: 0x3FD0_0000_0000_0000 },
                low_confidence_patience: 2,
                max_active_factors: 256,
                max_inactive_age_generations: 80,
                protect_temporal_from_confidence_pruning: true,
                geometric_damping: Scalar { bits: 0x3F1A_36E2_E000_0000 },
            }),
            config.valid(),
    {
        SparseFactorGraphConfig {
            temporal_radius: 3,
            active_window_keyframes: 12,
            proximity_radius_meters: Scalar { bits: 0x4004_0000_0000_0000 },
            proximity_min_shared_landmarks: 15,
            max_proximity_neighbors_per_keyframe: 8,
            support_saturation_count: 50,
            minimum_active_confidence: Scalar { bits: 0x3FC3_3333_4000_0000 },
            reactivation_confidence: Scalar { bits: 0x3FD0_0000_0000_0000 },
            low_confidence_patience: 2,
            max_active_factors: 256,
            max_inactive_age_generations: 80,
            protect_temporal_from_confidence_pruning: true,
            geometric_damping: Scalar { bits: 0x3F1A_36E2_E000_0000 },
        }
    }
}

impl SparseFactorGraphConfig {
    /// All counts are positive, the window spans two keyframes, the radius is
    /// finite and positive, the confidences are ordered in the unit interval, and
    /// the damping is finite and not negative.
    pub open spec fn valid(self) -> bool {
        &&& self.temporal_radius > 0
        &&& self.active_window_keyframes > 1
        &&& self.proximity_radius_meters.is_finite()
        &&& Scalar::zero().lt(self.proximity_radius_meters)
        &&& self.proximity_min_shared_landmarks > 0
        &&& self.max_proximity_neighbors_per_keyframe > 0
        &&& self.support_saturation_count > 0
        &&& Scalar::zero().le(self.minimum_active_confidence)
        &&& self.minimum_active_confidence.le(self.reactivation_confidence)
        &&& self.reactivation_confidence.le(Scalar::one())
        &&& self.low_confidence_patience > 0
        &&& self.max_active_factors > 0
        &&& self.max_inactive_age_generations > 0
        &&& self.geometric_damping.is_finite()
        &&& Scalar::zero().le(self.geometric_damping)
    }

    pub fn is_valid(&self) -> (b: bool)
        ensures
            b == self.valid(),
    {
        self.temporal_radius > 0 && self.active_window_keyframes > 1
            && self.proximity_radius_meters.is_finite() && Scalar::zero().lt(
            self.proximity_radius_meters,
        ) && self.proximity_min_shared_landmarks > 0 && self.max_proximity_neighbors_per_keyframe
            > 0 && self.support_saturation_count > 0 && self.minimum_active_confidence.is_finite()
            && Scalar::zero().le(self.minimum_active_confidence)
            && self.minimum_active_confidence.le(Scalar::one())
            && self.reactivation_confidence.is_finite() && self.minimum_active_confidence.le(
            self.reactivation_confidence,
        ) && self.reactivation_confidence.le(Scalar::one()) && self.low_confidence_patience > 0
            && self.max_active_factors > 0 && self.max_inactive_age_generations > 0
            && self.geometric_damping.is_finite() && Scalar::zero().le(self.geometric_damping)
    }
}

#[derive(Clone, Copy, Debug, PartialEq, Eq, Structural)]
pub struct SparseFactorGraphUpdateStats {
    pub keyframe_id: u64,
    pub generation: u64,
    pub added: usize,
    pub reactivated: usize,
    pub inactivated_low_confidence: usize,
    pub inactivated_window_age: usize,
    pub inactivated_budget: usize,
    pub pruned: usize,
    pub active_temporal: usize,
    pub active_proximity: usize,
    pub active_stereo: usize,
    pub inactive: usize,
}

/// A keyframe of the map: the landmarks it observes, in observation order, and
/// whether its pose is known.
#[derive(Clone, Debug, PartialEq, Eq)]
pub struct MapKeyframe {
    pub id: u64,
    pub has_pose: bool,
    pub landmark_ids: Vec<u64>,
}

/// What the factor graph reads of a visual map. Each id belongs to one keyframe.
#[derive(Clone, Debug, PartialEq, Eq)]
pub struct VisualMapSnapshot {
    pub keyframes: Vec<MapKeyframe>,
    /// The frame of each stereo observation.
    pub stereo_frame_ids: Vec<u64>,
}

/// Selects one id.
pub open spec fn is_frame(frame_id: u64) -> spec_fn(u64) -> bool {
    |id: u64| id == frame_id
}

/// Selects the ids of a list.
pub open spec fn is_one_of(ids: Seq<u64>) -> spec_fn(u64) -> bool {
    |id: u64| ids.contains(id)
}

impl VisualMapSnapshot {
    pub open spec fn wf(self) -> bool {
        forall|i: int, j: int|
            0 <= i < j < self.keyframes.len() ==> (#[trigger] self.keyframes[i]).id != (
            #[trigger] self.keyframes[j]).id
    }

    /// Keyframe `k` has this id.
    pub open spec fn is_at(self, k: int, id: u64) -> bool {
        0 <= k < self.keyframes.len() && self.keyframes[k].id == id
    }

    pub open spec fn has(self, id: u64) -> bool {
        exists|k: int| self.is_at(k, id)
    }

    pub open spec fn keyframe(self, id: u64) -> MapKeyframe {
        self.keyframes[choose|k: int| self.is_at(k, id)]
    }

    /// Number of observations of the right keyframe whose landmark the left one
    /// observes too; zero where a keyframe is missing.
    pub open spec fn shared(self, left_id: u64, right_id: u64) -> nat {
        if self.has(left_id) && self.has(right_id) {
            let seen = self.keyframe(left_id).landmark_ids@;
            self.keyframe(right_id).landmark_ids@.filter(is_one_of(seen)).len()
        } else {
            0
        }
    }

    /// Number of stereo observations of a frame.
    pub open spec fn stereo(self, frame_id: u64) -> nat {
        self.stereo_frame_ids@.filter(is_frame(frame_id)).len()
    }

    fn find(&self, id: u64) -> (found: Option<usize>)
        requires
            self.wf(),
        ensures
            found is Some <==> self.has(id),
            found matches Some(k) ==> self.is_at(k as int, id) && self.keyframe(id)
                == self.keyframes[k as int],
    {
        let mut k: usize = 0;
        while k < self.keyframes.len()
            invariant
                self.wf(),
                k <= self.keyframes.len(),
                forall|j: int| 0 <= j < k ==> !self.is_at(j, id),
            decreases self.keyframes.len() - k,
        {
            if self.keyframes[k].id == id {
                assert(self.is_at(k as int, id));
                return Some(k);
            }
            k += 1;
        }
        None
    }

    fn shared_count(&self, left_id: u64, right_id: u64) -> (count: usize)
        requires
            self.wf(),
        ensures
            count == self.shared(left_id, right_id),
    {
        let left: usize = match self.find(left_id) {
            Some(k) => k,
            None => {
                return 0;
            },
        };
        let right: usize = match self.find(right_id) {
            Some(k) => k,
            None => {
                return 0;
            },
        };
        let seen = &self.keyframes[left].landmark_ids;
        let ids = &self.keyframes[right].landmark_ids;
        let ghost p = is_one_of(seen@);
        let mut count: usize = 0;
        let mut i: usize = 0;
        while i < ids.len()
            invariant
                i <= ids.len(),
                p == is_one_of(seen@),
                count <= i,
                count == ids@.take(i as int).filter(p).len(),
            decreases ids.len() - i,
        {
            proof {
                lemma_filter_take(ids@, i as int, p);
            }
            if contains_id(seen, ids[i]) {
                count += 1;
            }
            i += 1;
        }
        proof {
            lemma_take_all(ids@);
        }
        count
    }

    fn stereo_count(&self, frame_id: u64) -> (count: usize)
        ensures
            count == self.stereo(frame_id),
    {
        let ids = &self.stereo_frame_ids;
        let ghost p = is_frame(frame_id);
        let mut count: usize = 0;
        let mut i: usize = 0;
        while i < ids.len()
            invariant
                i <= ids.len(),
                p == is_frame(frame_id),
                count <= i,
                count == ids@.take(i as int).filter(p).len(),
            decreases ids.len() - i,
        {
            proof {
                lemma_filter_take(ids@, i as int, p);
            }
            if ids[i] == frame_id {
                count += 1;
            }
            i += 1;
        }
        proof {
            lemma_take_all(ids@);
        }
        count
    }
}

/// The confidence of a pair of keyframes as the caller computed it.
#[derive(Clone, Copy, Debug, PartialEq, Eq, Structural)]
pub struct PairScore {
    pub left_id: u64,
    pub right_id: u64,
    pub confidence: Scalar,
}

/// The confidence of a frame's stereo support.
#[derive(Clone, Copy, Debug, PartialEq, Eq, Structural)]
pub struct StereoScore {
    pub frame_id: u64,
    pub confidence: Scalar,
}

/// The distance of a keyframe's camera centre from that of the new keyframe.
#[derive(Clone, Copy, Debug, PartialEq, Eq, Structural)]
pub struct CenterDistance {
    pub keyframe_id: u64,
    pub distance: Scalar,
}

/// The numbers that go with one update. Of several entries for the same thing the
/// last one counts.
#[derive(Clone, Debug, PartialEq, Eq)]
pub struct MapScores {
    pub pairs: Vec<PairScore>,
    pub stereo: Vec<StereoScore>,
    pub distances: Vec<CenterDistance>,
}

/// The confidence of the ordered pair; zero where none was given.
pub open spec fn pair_confidence(pairs: Seq<PairScore>, left_id: u64, right_id: u64) -> Scalar
    decreases pairs.len(),
{
    if pairs.len() == 0 {
        Scalar::zero()
    } else if pairs.last().left_id == left_id && pairs.last().right_id == right_id {
        pairs.last().confidence
    } else {
        pair_confidence(pairs.drop_last(), left_id, right_id)
    }
}

/// The confidence of the frame's stereo support; zero where none was given.
pub open spec fn stereo_confidence(stereo: Seq<StereoScore>, frame_id: u64) -> Scalar
    decreases stereo.len(),
{
    if stereo.len() == 0 {
        Scalar::zero()
    } else if stereo.last().frame_id == frame_id {
        stereo.last().confidence
    } else {
        stereo_confidence(stereo.drop_last(), frame_id)
    }
}

/// The distance of the keyframe; infinite where none was given.
pub open spec fn center_distance(distances: Seq<CenterDistance>, keyframe_id: u64) -> Scalar
    decreases distances.len(),
{
    if distances.len() == 0 {
        Scalar::infinity()
    } else if distances.last().keyframe_id == keyframe_id {
        distances.last().distance
    } else {
        center_distance(distances.drop_last(), keyframe_id)
    }
}

impl MapScores {
    fn pair(&self, left_id: u64, right_id: u64) -> (confidence: Scalar)
        ensures
            confidence == pair_confidence(self.pairs@, left_id, right_id),
    {
        let mut n: usize = self.pairs.len();
        assert(self.pairs@.take(n as int) =~= self.pairs@);
        while n > 0
            invariant
                n <= self.pairs.len(),
                pair_confidence(self.pairs@, left_id, right_id) == pair_confidence(
                    self.pairs@.take(n as int),
                    left_id,
                    right_id,
                ),
            decreases n,
        {
            let entry = self.pairs[n - 1];
            assert(self.pairs@.take(n as int).drop_last() =~= self.pairs@.take(n - 1));
            if entry.left_id == left_id && entry.right_id == right_id {
                return entry.confidence;
            }
            n -= 1;
        }
        Scalar::zero()
    }

    fn stereo_of(&self, frame_id: u64) -> (confidence: Scalar)
        ensures
            confidence == stereo_confidence(self.stereo@, frame_id),
    {
        let mut n: usize = self.stereo.len();
        assert(self.stereo@.take(n as int) =~= self.stereo@);
        while n > 0
            invariant
                n <= self.stereo.len(),
                stereo_confidence(self.stereo@, frame_id) == stereo_confidence(
                    self.stereo@.take(n as int),
                    frame_id,
                ),
            decreases n,
        {
            let entry = self.stereo[n - 1];
            assert(self.stereo@.take(n as int).drop_last() =~= self.stereo@.take(n - 1));
            if entry.frame_id == frame_id {
                return entry.confidence;
            }
            n -= 1;
        }
        Scalar::zero()
    }

    fn distance_of(&self, keyframe_id: u64) -> (distance: Scalar)
        ensures
            distance == center_distance(self.distances@, keyframe_id),
    {
        let mut n: usize = self.distances.len();
        assert(self.distances@.take(n as int) =~= self.distances@);
        while n > 0
            invariant
                n <= self.distances.len(),
                center_distance(self.distances@, keyframe_id) == center_distance(
                    self.distances@.take(n as int),
                    keyframe_id,
                ),
            decreases n,
        {
            let entry = self.distances[n - 1];
            assert(self.distances@.take(n as int).drop_last() =~= self.distances@.take(n - 1));
            if entry.keyframe_id == keyframe_id {
                return entry.distance;
            }
            n -= 1;
        }
        Scalar::infinity()
    }
}

/// Support and confidence of one factor.
#[derive(Clone, Copy, Debug, PartialEq, Eq, Structural)]
pub struct Support {
    pub count: usize,
    pub confidence: Scalar,
}

/// What one update reads.
pub struct Evidence<'a> {
    pub map: &'a VisualMapSnapshot,
    pub scores: &'a MapScores,
}

impl<'a> Evidence<'a> {
    /// Support that two keyframes share; nothing where one is missing.
    pub open spec fn pair(self, left_id: u64, right_id: u64) -> Support {
        Support {
            count: self.map.shared(left_id, right_id) as usize,
            confidence: if self.map.has(left_id) && self.map.has(right_id) {
                pair_confidence(self.scores.pairs@, left_id, right_id)
            } else {
                Scalar::zero()
            },
        }
    }

    /// Stereo support of a frame.
    pub open spec fn stereo(self, frame_id: u64) -> Support {
        Support {
            count: self.map.stereo(frame_id) as usize,
            confidence: stereo_confidence(self.scores.stereo@, frame_id),
        }
    }

    /// Support of a factor, by its kind.
    pub open spec fn of_key(self, key: SparseFactorKey) -> Support {
        if key.kind is Stereo {
            self.stereo(key.from_keyframe_id)
        } else {
            self.pair(key.from_keyframe_id, key.to_keyframe_id)
        }
    }

    fn pair_support(&self, left_id: u64, right_id: u64) -> (support: Support)
        requires
            self.map.wf(),
        ensures
            support == self.pair(left_id, right_id),
    {
        let count: usize = self.map.shared_count(left_id, right_id);
        let known: bool = self.map.find(left_id).is_some() && self.map.find(right_id).is_some();
        Support {
            count,
            confidence: if known {
                self.scores.pair(left_id, right_id)
            } else {
                Scalar::zero()
            },
        }
    }

    fn stereo_support(&self, frame_id: u64) -> (support: Support)
        ensures
            support == self.stereo(frame_id),
    {
        Support {
            count: self.map.stereo_count(frame_id),
            confidence: self.scores.stereo_of(frame_id),
        }
    }
}

/// A factor that the newest keyframe suggests.
#[derive(Clone, Copy, Debug, PartialEq, Eq, Structural)]
pub struct FactorProposal {
    pub key: SparseFactorKey,
    pub support_count: usize,
    pub confidence: Scalar,
}

/// The proposal for one direction of a pair.
pub open spec fn directed_proposal(
    from: u64,
    to: u64,
    kind: SparseFactorKind,
    support: Support,
) -> FactorProposal {
    FactorProposal {
        key: SparseFactorKey { from_keyframe_id: from, to_keyframe_id: to, kind },
        support_count: support.count,
        confidence: support.confidence,
    }
}

/// Both directions between each of `ids` and the new keyframe, in the order of
/// `ids`, with the support that the other keyframe shares with the new one.
pub open spec fn pair_proposals(
    ids: Seq<u64>,
    new_id: u64,
    kind: SparseFactorKind,
    evidence: Evidence,
) -> Seq<FactorProposal>
    decreases ids.len(),
{
    if ids.len() == 0 {
        Seq::empty()
    } else {
        let other = ids.last();
        let support = evidence.pair(other, new_id);
        pair_proposals(ids.drop_last(), new_id, kind, evidence).push(
            directed_proposal(other, new_id, kind, support),
        ).push(directed_proposal(new_id, other, kind, support))
    }
}

/// Selects every id but one.
pub open spec fn is_not(new_id: u64) -> spec_fn(u64) -> bool {
    |id: u64| id != new_id
}

/// Selects the ids of keyframes that are near the new one: with a known pose, not
/// farther than the radius, with enough shared landmarks, and not linked already.
pub open spec fn is_near(
    linked: Seq<u64>,
    new_id: u64,
    config: SparseFactorGraphConfig,
    evidence: Evidence,
) -> spec_fn(u64) -> bool {
    |id: u64|
        {
            &&& !linked.contains(id)
            &&& evidence.map.has(id)
            &&& evidence.map.keyframe(id).has_pose
            &&& !config.proximity_radius_meters.lt(center_distance(evidence.scores.distances@, id))
            &&& evidence.pair(id, new_id).count >= config.proximity_min_shared_landmarks
        }
}

/// Neighbours are preferred by confidence, by support, by distance, and by id.
pub open spec fn proximity_key(id: u64, new_id: u64, evidence: Evidence) -> SortKey {
    let support = evidence.pair(id, new_id);
    SortKey {
        a: -support.confidence.total_rank() as i128,
        b: -(support.count as i128) as i128,
        c: center_distance(evidence.scores.distances@, id).total_rank(),
        d: id as i128,
        e: 0,
    }
}

/// The elements that an index list picks.
pub open spec fn picked(ids: Seq<u64>, order: Seq<usize>) -> Seq<u64> {
    Seq::new(order.len(), |k: int| ids[order[k] as int])
}

impl SparseFactorGraphConfig {
    /// The latest earlier keyframes, in increasing order of id.
    pub open spec fn temporal_ids(self, order: Seq<u64>, new_id: u64) -> Seq<u64> {
        sorted_set_of(last_n(order.filter(is_not(new_id)), self.temporal_radius as int))
    }

    /// The best near keyframes, best first.
    pub open spec fn proximity_ids(self, order: Seq<u64>, new_id: u64, evidence: Evidence) -> Seq<
        u64,
    > {
        let linked = self.temporal_ids(order, new_id);
        let near = order.filter(is_not(new_id)).filter(is_near(linked, new_id, self, evidence));
        let keys = near.map_values(|id: u64| proximity_key(id, new_id, evidence));
        picked(
            near,
            first_n(stable_order_of(keys), self.max_proximity_neighbors_per_keyframe as int),
        )
    }

    /// What a new keyframe proposes: temporal edges to the latest earlier
    /// keyframes, proximity edges to the best near ones, and a stereo edge where it
    /// has stereo observations. A keyframe without a known pose proposes nothing.
    pub open spec fn proposals(self, order: Seq<u64>, new_id: u64, evidence: Evidence) -> Seq<
        FactorProposal,
    > {
        if evidence.map.has(new_id) && evidence.map.keyframe(new_id).has_pose {
            let temporal = pair_proposals(
                self.temporal_ids(order, new_id),
                new_id,
                SparseFactorKind::Temporal,
                evidence,
            );
            let proximity = pair_proposals(
                self.proximity_ids(order, new_id, evidence),
                new_id,
                SparseFactorKind::Proximity,
                evidence,
            );
            let stereo = evidence.stereo(new_id);
            if stereo.count > 0 {
                (temporal + proximity).push(
                    directed_proposal(new_id, new_id, SparseFactorKind::Stereo, stereo),
                )
            } else {
                temporal + proximity
            }
        } else {
            Seq::empty()
        }
    }
}

fn push_pair_proposals(
    proposals: &mut Vec<FactorProposal>,
    ids: &Vec<u64>,
    new_id: u64,
    kind: SparseFactorKind,
    evidence: &Evidence,
)
    requires
        evidence.map.wf(),
    ensures
        final(proposals)@ == old(proposals)@ + pair_proposals(ids@, new_id, kind, *evidence),
{
    let ghost before = proposals@;
    let mut i: usize = 0;
    assert(before + pair_proposals(ids@.take(0), new_id, kind, *evidence) =~= before);
    while i < ids.len()
        invariant
            i <= ids.len(),
            evidence.map.wf(),
            proposals@ == before + pair_proposals(ids@.take(i as int), new_id, kind, *evidence),
        decreases ids.len() - i,
    {
        let other: u64 = ids[i];
        let support = evidence.pair_support(other, new_id);
        proof {
            assert(ids@.take(i + 1).drop_last() =~= ids@.take(i as int));
        }
        proposals.push(
            FactorProposal {
                key: SparseFactorKey { from_keyframe_id: other, to_keyframe_id: new_id, kind },
                support_count: support.count,
                confidence: support.confidence,
            },
        );
        proposals.push(
            FactorProposal {
                key: SparseFactorKey { from_keyframe_id: new_id, to_keyframe_id: other, kind },
                support_count: support.count,
                confidence: support.confidence,
            },
        );
        i += 1;
        assert(proposals@ =~= before + pair_proposals(
            ids@.take(i as int),
            new_id,
            kind,
            *evidence,
        ));
    }
    proof {
        lemma_take_all(ids@);
    }
}

fn ids_without(ids: &Vec<u64>, new_id: u64) -> (rest: Vec<u64>)
    ensures
        rest@ == ids@.filter(is_not(new_id)),
{
    let ghost p = is_not(new_id);
    let mut rest: Vec<u64> = Vec::new();
    let mut i: usize = 0;
    while i < ids.len()
        invariant
            i <= ids.len(),
            p == is_not(new_id),
            rest@ == ids@.take(i as int).filter(p),
        decreases ids.len() - i,
    {
        proof {
            lemma_filter_take(ids@, i as int, p);
        }
        if ids[i] != new_id {
            rest.push(ids[i]);
        }
        i += 1;
    }
    proof {
        lemma_take_all(ids@);
    }
    rest
}

fn near_ids(
    previous: &Vec<u64>,
    linked: &Vec<u64>,
    new_id: u64,
    config: &SparseFactorGraphConfig,
    evidence: &Evidence,
) -> (near: Vec<u64>)
    requires
        evidence.map.wf(),
    ensures
        near@ == previous@.filter(is_near(linked@, new_id, *config, *evidence)),
{
    let ghost p = is_near(linked@, new_id, *config, *evidence);
    let mut near: Vec<u64> = Vec::new();
    let mut i: usize = 0;
    while i < previous.len()
        invariant
            i <= previous.len(),
            evidence.map.wf(),
            p == is_near(linked@, new_id, *config, *evidence),
            near@ == previous@.take(i as int).filter(p),
        decreases previous.len() - i,
    {
        let id: u64 = previous[i];
        proof {
            lemma_filter_take(previous@, i as int, p);
        }
        let posed: bool = match evidence.map.find(id) {
            Some(k) => evidence.map.keyframes[k].has_pose,
            None => false,
        };
        if posed && !contains_id(linked, id) {
            let distance = evidence.scores.distance_of(id);
            let support = evidence.pair_support(id, new_id);
            if !config.proximity_radius_meters.lt(distance) && support.count
                >= config.proximity_min_shared_landmarks {
                near.push(id);
            }
        }
        i += 1;
    }
    proof {
        lemma_take_all(previous@);
    }
    near
}

/// The best near keyframes, best first.
fn best_near(
    near: &Vec<u64>,
    new_id: u64,
    maximum: usize,
    evidence: &Evidence,
) -> (best: Vec<u64>)
    requires
        evidence.map.wf(),
    ensures
        best@ == picked(
            near@,
            first_n(
                stable_order_of(near@.map_values(|id: u64| proximity_key(id, new_id, *evidence))),
                maximum as int,
            ),
        ),
{
    let mut keys: Vec<SortKey> = Vec::new();
    let mut i: usize = 0;
    while i < near.len()
        invariant
            i <= near.len(),
            evidence.map.wf(),
            keys.len() == i,
            forall|k: int| 0 <= k < i ==> keys[k] == proximity_key(near[k], new_id, *evidence),
        decreases near.len() - i,
    {
        let support = evidence.pair_support(near[i], new_id);
        let distance = evidence.scores.distance_of(near[i]);
        keys.push(
            SortKey {
                a: -support.confidence.total_rank(),
                b: -(support.count as i128),
                c: distance.total_rank(),
                d: near[i] as i128,
                e: 0,
            },
        );
        i += 1;
    }
    assert(keys@ =~= near@.map_values(|id: u64| proximity_key(id, new_id, *evidence)));
    let order = stable_order(&keys);
    let mut best: Vec<u64> = Vec::new();
    let mut k: usize = 0;
    while k < order.len() && k < maximum
        invariant
            k <= order.len(),
            k <= maximum,
            order.len() == near.len(),
            forall|j: int| 0 <= j < order.len() ==> (#[trigger] order[j]) < near.len(),
            best.len() == k,
            forall|j: int| 0 <= j < k ==> best[j] == near[order[j] as int],
        decreases order.len() - k,
    {
        best.push(near[order[k]]);
        k += 1;
    }
    assert(best@ =~= picked(near@, first_n(order@, maximum as int)));
    best
}

/// Saturating successor of a counter.
pub open spec fn next_count(n: u64) -> u64 {
    if n == u64::MAX {
        n
    } else {
        (n + 1) as u64
    }
}

/// The factors are sorted by key, each key once.
pub open spec fn sorted_by_key(factors: Seq<SparseKeyframeFactor>) -> bool {
    forall|i: int, j: int|
        0 <= i < j < factors.len() ==> (#[trigger] factors[i]).key.before(
            (#[trigger] factors[j]).key,
        )
}

/// Factor `k` has this key.
pub open spec fn key_at(factors: Seq<SparseKeyframeFactor>, k: int, key: SparseFactorKey) -> bool {
    0 <= k < factors.len() && factors[k].key == key
}

/// Where a factor with this key belongs: behind all factors with smaller keys.
pub open spec fn slot(factors: Seq<SparseKeyframeFactor>, key: SparseFactorKey) -> int
    decreases factors.len(),
{
    if factors.len() == 0 {
        0
    } else if factors.last().key.before(key) {
        factors.len() as int
    } else {
        slot(factors.drop_last(), key)
    }
}

proof fn lemma_slot(factors: Seq<SparseKeyframeFactor>, key: SparseFactorKey, p: int)
    requires
        0 <= p <= factors.len(),
        forall|i: int| 0 <= i < p ==> (#[trigger] factors[i]).key.before(key),
        forall|i: int| p <= i < factors.len() ==> !(#[trigger] factors[i]).key.before(key),
    ensures
        slot(factors, key) == p,
    decreases factors.len(),
{
    if factors.len() > 0 && p < factors.len() {
        assert(!factors.last().key.before(key));
        lemma_slot(factors.drop_last(), key, p);
    }
}

/// The state of a factor graph.
#[verifier::ext_equal]
pub struct GraphModel {
    pub config: SparseFactorGraphConfig,
    pub generation: u64,
    /// Keyframes by age, oldest first.
    pub keyframe_order: Seq<u64>,
    /// Factors by key.
    pub factors: Seq<SparseKeyframeFactor>,
}

impl GraphModel {
    /// The configuration is valid, no keyframe and no key occurs twice, and every
    /// factor's record of inactivity fits its state.
    pub open spec fn wf(self) -> bool {
        &&& self.config.valid()
        &&& self.keyframe_order.no_duplicates()
        &&& sorted_by_key(self.factors)
        &&& forall|k: int| 0 <= k < self.factors.len() ==> (#[trigger] self.factors[k]).coherent()
    }

    /// The newest keyframes.
    pub open spec fn window(self) -> Seq<u64> {
        last_n(self.keyframe_order, self.config.active_window_keyframes as int)
    }
}

/// A factor after a proposal for its key.
pub open spec fn refreshed(
    factor: SparseKeyframeFactor,
    proposal: FactorProposal,
    generation: u64,
    config: SparseFactorGraphConfig,
) -> SparseKeyframeFactor {
    let scored = SparseKeyframeFactor {
        support_count: proposal.support_count,
        confidence: proposal.confidence,
        last_scored_generation: generation,
        low_confidence_streak: 0,
        update_count: next_count(factor.update_count),
        ..factor
    };
    if !factor.active() && config.reactivation_confidence.le(proposal.confidence) {
        scored.revived()
    } else {
        scored
    }
}

/// The record of a factor that is proposed for the first time.
pub open spec fn fresh(
    proposal: FactorProposal,
    generation: u64,
    config: SparseFactorGraphConfig,
) -> SparseKeyframeFactor {
    SparseKeyframeFactor {
        key: proposal.key,
        state: SparseFactorState::Active,
        inactive_reason: None,
        support_count: proposal.support_count,
        confidence: proposal.confidence,
        measurement: SparseFactorMeasurement::spec_geometric(
            proposal.confidence,
            config.geometric_damping,
        ),
        created_generation: generation,
        last_scored_generation: generation,
        inactive_since_generation: None,
        low_confidence_streak: 0,
        update_count: 1,
    }
}

/// The proposal adds a factor.
pub open spec fn adds(before: Seq<SparseKeyframeFactor>, proposal: FactorProposal) -> bool {
    !key_at(before, slot(before, proposal.key), proposal.key)
}

/// The proposal revives a factor.
pub open spec fn revives(
    before: Seq<SparseKeyframeFactor>,
    proposal: FactorProposal,
    config: SparseFactorGraphConfig,
) -> bool {
    &&& !adds(before, proposal)
    &&& !before[slot(before, proposal.key)].active()
    &&& config.reactivation_confidence.le(proposal.confidence)
}

/// The factors after one proposal: the factor with its key is refreshed, or a fresh
/// one takes its place.
pub open spec fn with_proposal(
    before: Seq<SparseKeyframeFactor>,
    proposal: FactorProposal,
    generation: u64,
    config: SparseFactorGraphConfig,
) -> Seq<SparseKeyframeFactor> {
    let k = slot(before, proposal.key);
    if adds(before, proposal) {
        before.insert(k, fresh(proposal, generation, config))
    } else {
        before.update(k, refreshed(before[k], proposal, generation, config))
    }
}

/// The factors after a list of proposals.
pub open spec fn with_proposals(
    before: Seq<SparseKeyframeFactor>,
    proposals: Seq<FactorProposal>,
    generation: u64,
    config: SparseFactorGraphConfig,
) -> Seq<SparseKeyframeFactor>
    decreases proposals.len(),
{
    if proposals.len() == 0 {
        before
    } else {
        with_proposal(
            with_proposals(before, proposals.drop_last(), generation, config),
            proposals.last(),
            generation,
            config,
        )
    }
}

/// Number of proposals that add a factor.
pub open spec fn added_by(
    before: Seq<SparseKeyframeFactor>,
    proposals: Seq<FactorProposal>,
    generation: u64,
    config: SparseFactorGraphConfig,
) -> nat
    decreases proposals.len(),
{
    if proposals.len() == 0 {
        0
    } else {
        let rest = proposals.drop_last();
        added_by(before, rest, generation, config) + if adds(
            with_proposals(before, rest, generation, config),
            proposals.last(),
        ) {
            1nat
        } else {
            0nat
        }
    }
}

/// Number of proposals that revive a factor.
pub open spec fn revived_by(
    before: Seq<SparseKeyframeFactor>,
    proposals: Seq<FactorProposal>,
    generation: u64,
    config: SparseFactorGraphConfig,
) -> nat
    decreases proposals.len(),
{
    if proposals.len() == 0 {
        0
    } else {
        let rest = proposals.drop_last();
        revived_by(before, rest, generation, config) + if revives(
            with_proposals(before, rest, generation, config),
            proposals.last(),
            config,
        ) {
            1nat
        } else {
            0nat
        }
    }
}

/// A factor's streak of low confidence after one more score.
pub open spec fn next_streak(
    factor: SparseKeyframeFactor,
    confidence: Scalar,
    config: SparseFactorGraphConfig,
) -> usize {
    if confidence.lt(config.minimum_active_confidence) {
        if factor.low_confidence_streak == usize::MAX {
            usize::MAX
        } else {
            (factor.low_confidence_streak + 1) as usize
        }
    } else {
        0
    }
}

/// An active factor is given up: it may be pruned by confidence, and its streak has
/// lasted for the configured number of passes.
pub open spec fn gives_up(
    factor: SparseKeyframeFactor,
    confidence: Scalar,
    config: SparseFactorGraphConfig,
) -> bool {
    &&& factor.active()
    &&& !(factor.key.kind is Temporal) || !config.protect_temporal_from_confidence_pruning
    &&& next_streak(factor, confidence, config) >= config.low_confidence_patience
}

/// A factor that was retired for low confidence, and for nothing else, is taken up
/// again: its confidence has recovered and it touches the active window.
pub open spec fn recovers(
    factor: SparseKeyframeFactor,
    confidence: Scalar,
    window: Seq<u64>,
    config: SparseFactorGraphConfig,
) -> bool {
    &&& !factor.active()
    &&& factor.inactive_reason == Some(SparseFactorInactiveReason::LowConfidence)
    &&& config.reactivation_confidence.le(confidence)
    &&& window.contains(factor.key.from_keyframe_id) || window.contains(factor.key.to_keyframe_id)
}

/// A factor after rescoring.
pub open spec fn rescored(
    factor: SparseKeyframeFactor,
    support: Support,
    window: Seq<u64>,
    generation: u64,
    config: SparseFactorGraphConfig,
) -> SparseKeyframeFactor {
    let scored = SparseKeyframeFactor {
        support_count: support.count,
        confidence: support.confidence,
        last_scored_generation: generation,
        low_confidence_streak: next_streak(factor, support.confidence, config),
        ..factor
    };
    if gives_up(factor, support.confidence, config) {
        scored.retired(SparseFactorInactiveReason::LowConfidence, generation)
    } else if recovers(factor, support.confidence, window, config) {
        scored.revived()
    } else {
        scored
    }
}

/// An active factor whose two keyframes have both left the active window.
pub open spec fn is_outside(factor: SparseKeyframeFactor, window: Seq<u64>) -> bool {
    &&& factor.active()
    &&& !window.contains(factor.key.from_keyframe_id)
    &&& !window.contains(factor.key.to_keyframe_id)
}

/// A factor after the active window has moved on.
pub open spec fn aged(factor: SparseKeyframeFactor, window: Seq<u64>, generation: u64) -> SparseKeyframeFactor {
    if is_outside(factor, window) {
        factor.retired(SparseFactorInactiveReason::WindowAge, generation)
    } else {
        factor
    }
}

/// Selects the active factors.
pub open spec fn is_active() -> spec_fn(SparseKeyframeFactor) -> bool {
    |factor: SparseKeyframeFactor| factor.active()
}

/// Selects the inactive factors.
pub open spec fn is_inactive() -> spec_fn(SparseKeyframeFactor) -> bool {
    |factor: SparseKeyframeFactor| !factor.active()
}

/// Selects the active factors of one kind.
pub open spec fn is_active_kind(kind: SparseFactorKind) -> spec_fn(SparseKeyframeFactor) -> bool {
    |factor: SparseKeyframeFactor| factor.active() && factor.key.kind == kind
}

/// Whether the budget spares the factor as long as others can go.
pub open spec fn is_protected(factor: SparseKeyframeFactor) -> bool {
    factor.key.kind is Temporal || factor.key.kind is Stereo
}

/// The budget takes `left` before `right`: unprotected factors first, then by lower
/// confidence, by age, and by key.
pub open spec fn goes_first(left: SparseKeyframeFactor, right: SparseKeyframeFactor) -> bool {
    let lp: int = if is_protected(left) { 1 } else { 0 };
    let rp: int = if is_protected(right) { 1 } else { 0 };
    let lc = left.confidence.total_rank();
    let rc = right.confidence.total_rank();
    ||| lp < rp
    ||| lp == rp && lc < rc
    ||| lp == rp && lc == rc && left.created_generation < right.created_generation
    ||| lp == rp && lc == rc && left.created_generation == right.created_generation
        && left.key.before(right.key)
}

/// `after` is `before` cut down to the budget: exactly the surplus of active
/// factors is retired, and every retired one goes before every one that stays.
pub open spec fn is_budget_cut(
    before: Seq<SparseKeyframeFactor>,
    after: Seq<SparseKeyframeFactor>,
    generation: u64,
    maximum: int,
) -> bool {
    &&& after.len() == before.len()
    &&& forall|k: int|
        #![trigger after[k]]
        0 <= k < before.len() ==> after[k] == before[k] || (before[k].active() && after[k]
            == before[k].retired(SparseFactorInactiveReason::ActiveBudget, generation))
    &&& after.filter(is_active()).len() == if before.filter(is_active()).len() <= maximum {
        before.filter(is_active()).len() as int
    } else {
        maximum
    }
    &&& forall|i: int, j: int|
        #![trigger after[i], after[j]]
        0 <= i < before.len() && 0 <= j < before.len() && before[i].active() && !after[i].active()
            && after[j].active() ==> goes_first(before[i], before[j])
}

/// Selects the factors that are not forgotten: active, or inactive for no longer
/// than the maximum age.
pub open spec fn is_kept(generation: u64, maximum_age: u64) -> spec_fn(SparseKeyframeFactor) -> bool {
    |factor: SparseKeyframeFactor|
        factor.active() || (factor.inactive_since_generation is Some && generation
            - factor.inactive_since_generation->0 <= maximum_age)
}

/// The factors after rescoring.
pub open spec fn rescored_all(
    factors: Seq<SparseKeyframeFactor>,
    window: Seq<u64>,
    generation: u64,
    config: SparseFactorGraphConfig,
    evidence: Evidence,
) -> Seq<SparseKeyframeFactor> {
    factors.map_values(
        |factor: SparseKeyframeFactor|
            rescored(factor, evidence.of_key(factor.key), window, generation, config),
    )
}

/// The factors after the window has moved on.
pub open spec fn aged_all(
    factors: Seq<SparseKeyframeFactor>,
    window: Seq<u64>,
    generation: u64,
) -> Seq<SparseKeyframeFactor> {
    factors.map_values(|factor: SparseKeyframeFactor| aged(factor, window, generation))
}

/// Selects the factors that rescoring gives up.
pub open spec fn is_given_up(config: SparseFactorGraphConfig, evidence: Evidence) -> spec_fn(
    SparseKeyframeFactor,
) -> bool {
    |factor: SparseKeyframeFactor|
        gives_up(factor, evidence.of_key(factor.key).confidence, config)
}

/// Selects the factors that rescoring takes up again.
pub open spec fn is_recovered(
    window: Seq<u64>,
    config: SparseFactorGraphConfig,
    evidence: Evidence,
) -> spec_fn(SparseKeyframeFactor) -> bool {
    |factor: SparseKeyframeFactor|
        !gives_up(factor, evidence.of_key(factor.key).confidence, config) && recovers(
            factor,
            evidence.of_key(factor.key).confidence,
            window,
            config,
        )
}

/// Selects the active factors outside the window.
pub open spec fn is_outside_of(window: Seq<u64>) -> spec_fn(SparseKeyframeFactor) -> bool {
    |factor: SparseKeyframeFactor| is_outside(factor, window)
}

/// Selects the ids of keyframes that the map holds.
pub open spec fn is_mapped(map: VisualMapSnapshot) -> spec_fn(u64) -> bool {
    |id: u64| map.has(id)
}

/// Keyframes by age after `new_id` was committed: it comes last unless it is there
/// already, and keyframes that left the map are dropped.
pub open spec fn next_order(order: Seq<u64>, new_id: u64, map: VisualMapSnapshot) -> Seq<u64> {
    let longer = if order.contains(new_id) {
        order
    } else {
        order.push(new_id)
    };
    longer.filter(is_mapped(map))
}

/// A sparse graph of factors between keyframes.
#[derive(Clone, Debug, PartialEq, Eq)]
pub struct SparseFactorGraph {
    config: SparseFactorGraphConfig,
    generation: u64,
    keyframe_order: Vec<u64>,
    factors: Vec<SparseKeyframeFactor>,
}

impl View for SparseFactorGraph {
    type V = GraphModel;

    closed spec fn view(&self) -> GraphModel {
        GraphModel {
            config: self.config,
            generation: self.generation,
            keyframe_order: self.keyframe_order@,
            factors: self.factors@,
        }
    }
}

impl SparseFactorGraph {
    /// An empty graph.
    pub fn new(config: SparseFactorGraphConfig) -> (graph: Self)
        requires
            config.valid(),
        ensures
            graph@ == (GraphModel {
                config,
                generation: 0,
                keyframe_order: Seq::empty(),
                factors: Seq::empty(),
            }),
            graph@.wf(),
    {
        SparseFactorGraph {
            config,
            generation: 0,
            keyframe_order: Vec::new(),
            factors: Vec::new(),
        }
    }

    pub fn config(&self) -> (config: &SparseFactorGraphConfig)
        ensures
            *config == self@.config,
    {
        &self.config
    }

    /// The keyframes in the order in which they were committed.
    pub fn keyframe_order(&self) -> (order: &Vec<u64>)
        ensures
            order@ == self@.keyframe_order,
    {
        &self.keyframe_order
    }

    /// All factors, by key.
    pub fn factors(&self) -> (factors: &Vec<SparseKeyframeFactor>)
        ensures
            factors@ == self@.factors,
    {
        &self.factors
    }

    /// The active factors, by key.
    pub fn active_factors(&self) -> (factors: Vec<SparseKeyframeFactor>)
        ensures
            factors@ == self@.factors.filter(is_active()),
    {
        self.factors_in_state(SparseFactorState::Active)
    }

    /// The inactive factors, by key.
    pub fn inactive_factors(&self) -> (factors: Vec<SparseKeyframeFactor>)
        ensures
            factors@ == self@.factors.filter(is_inactive()),
    {
        self.factors_in_state(SparseFactorState::Inactive)
    }

    fn factors_in_state(&self, state: SparseFactorState) -> (factors: Vec<SparseKeyframeFactor>)
        ensures
            state is Active ==> factors@ == self@.factors.filter(is_active()),
            state is Inactive ==> factors@ == self@.factors.filter(is_inactive()),
    {
        let ghost p = if state is Active {
            is_active()
        } else {
            is_inactive()
        };
        let mut found: Vec<SparseKeyframeFactor> = Vec::new();
        let mut i: usize = 0;
        while i < self.factors.len()
            invariant
                i <= self.factors.len(),
                p == if state is Active {
                    is_active()
                } else {
                    is_inactive()
                },
                found@ == self.factors@.take(i as int).filter(p),
            decreases self.factors.len() - i,
        {
            proof {
                lemma_filter_take(self.factors@, i as int, p);
            }
            if self.factors[i].state == state {
                found.push(self.factors[i]);
            }
            i += 1;
        }
        proof {
            lemma_take_all(self.factors@);
        }
        found
    }

    /// The slot of a key, by binary search.
    fn find_slot(&self, key: SparseFactorKey) -> (p: usize)
        requires
            sorted_by_key(self@.factors),
        ensures
            p == slot(self@.factors, key),
            p <= self@.factors.len(),
            forall|i: int| 0 <= i < p ==> (#[trigger] self@.factors[i]).key.before(key),
            forall|i: int|
                p <= i < self@.factors.len() ==> !(#[trigger] self@.factors[i]).key.before(key),
            (exists|k: int| key_at(self@.factors, k, key)) <==> key_at(
                self@.factors,
                p as int,
                key,
            ),
            forall|k: int| key_at(self@.factors, k, key) ==> k == p,
    {
        let mut lo: usize = 0;
        let mut hi: usize = self.factors.len();
        while lo < hi
            invariant
                sorted_by_key(self.factors@),
                lo <= hi <= self.factors.len(),
                forall|i: int| 0 <= i < lo ==> (#[trigger] self.factors[i]).key.before(key),
                forall|i: int|
                    hi <= i < self.factors.len() ==> !(#[trigger] self.factors[i]).key.before(key),
            decreases hi - lo,
        {
            let mid: usize = lo + (hi - lo) / 2;
            if self.factors[mid].key.before(key) {
                assert(forall|i: int|
                    0 <= i < mid ==> (#[trigger] self.factors[i]).key.before(
                        self.factors[mid as int].key,
                    ));
                lo = mid + 1;
            } else {
                assert(forall|i: int|
                    mid < i < self.factors.len() ==> self.factors[mid as int].key.before(
                        (#[trigger] self.factors[i]).key,
                    ));
                hi = mid;
            }
        }
        proof {
            lemma_slot(self.factors@, key, lo as int);
            assert forall|k: int| key_at(self@.factors, k, key) implies k == lo by {
                if k > lo {
                    assert(self.factors[lo as int].key.before(self.factors[k].key));
                }
            }
        }
        lo
    }

    /// The factor with this key.
    pub fn factor(&self, key: SparseFactorKey) -> (found: Option<&SparseKeyframeFactor>)
        requires
            self@.wf(),
        ensures
            found is Some <==> exists|k: int| key_at(self@.factors, k, key),
            found matches Some(factor) ==> factor.key == key && self@.factors.contains(*factor),
    {
        let p: usize = self.find_slot(key);
        if p < self.factors.len() && self.factors[p].key == key {
            assert(self@.factors[p as int].key == key);
            Some(&self.factors[p])
        } else {
            None
        }
    }

    /// Replaces an edge target and information estimate, for instance from a learned
    /// update operator. Invalid numbers are rejected.
    pub fn update_measurement(
        &mut self,
        key: SparseFactorKey,
        measurement: SparseFactorMeasurement,
    ) -> (updated: bool)
        requires
            old(self)@.wf(),
        ensures
            final(self)@.wf(),
            updated <==> measurement.valid() && exists|k: int| key_at(old(self)@.factors, k, key),
            !updated ==> final(self)@ == old(self)@,
            updated ==> forall|k: int| #[trigger]
                key_at(old(self)@.factors, k, key) ==> final(self)@ == (GraphModel {
                    factors: old(self)@.factors.update(
                        k,
                        SparseKeyframeFactor {
                            measurement,
                            update_count: next_count(old(self)@.factors[k].update_count),
                            ..old(self)@.factors[k]
                        },
                    ),
                    ..old(self)@
                }),
    {
        if !measurement.is_valid() {
            return false;
        }
        let p: usize = self.find_slot(key);
        if p < self.factors.len() && self.factors[p].key == key {
            let mut factor = self.factors[p];
            factor.measurement = measurement;
            factor.update_count = factor.update_count.saturating_add(1);
            self.factors.set(p, factor);
            assert(key_at(old(self)@.factors, p as int, key));
            true
        } else {
            false
        }
    }

    /// Reactivates an inactive factor that a broader recovery pass has selected.
    /// Ordinary rescoring does not revive factors that were retired for budget or
    /// age.
    pub fn reactivate_factor(&mut self, key: SparseFactorKey) -> (revived: bool)
        requires
            old(self)@.wf(),
        ensures
            final(self)@.wf(),
            revived <==> exists|k: int| #[trigger]
                key_at(old(self)@.factors, k, key) && !old(self)@.factors[k].active() && !old(
                    self,
                )@.factors[k].confidence.lt(old(self)@.config.reactivation_confidence),
            !revived ==> final(self)@ == old(self)@,
            revived ==> forall|k: int| #[trigger]
                key_at(old(self)@.factors, k, key) ==> final(self)@ == (GraphModel {
                    factors: old(self)@.factors.update(k, old(self)@.factors[k].revived()),
                    ..old(self)@
                }),
    {
        let p: usize = self.find_slot(key);
        if p >= self.factors.len() || self.factors[p].key != key {
            return false;
        }
        assert(key_at(self@.factors, p as int, key));
        let mut factor = self.factors[p];
        if factor.state == SparseFactorState::Active || factor.confidence.lt(
            self.config.reactivation_confidence,
        ) {
            return false;
        }
        factor.state = SparseFactorState::Active;
        factor.inactive_reason = None;
        factor.inactive_since_generation = None;
        factor.low_confidence_streak = 0;
        self.factors.set(p, factor);
        true
    }

    /// What the new keyframe proposes.
    fn propose_new_factors(&self, new_id: u64, evidence: &Evidence) -> (proposals: Vec<
        FactorProposal,
    >)
        requires
            evidence.map.wf(),
        ensures
            proposals@ == self@.config.proposals(self@.keyframe_order, new_id, *evidence),
    {
        let mut proposals: Vec<FactorProposal> = Vec::new();
        let posed: bool = match evidence.map.find(new_id) {
            Some(k) => evidence.map.keyframes[k].has_pose,
            None => false,
        };
        if !posed {
            return proposals;
        }
        let previous = ids_without(&self.keyframe_order, new_id);
        let recent = last_ids(&previous, self.config.temporal_radius);
        let temporal = sorted_set(&recent);
        push_pair_proposals(
            &mut proposals,
            &temporal,
            new_id,
            SparseFactorKind::Temporal,
            evidence,
        );
        let near = near_ids(&previous, &temporal, new_id, &self.config, evidence);
        let best = best_near(
            &near,
            new_id,
            self.config.max_proximity_neighbors_per_keyframe,
            evidence,
        );
        push_pair_proposals(
            &mut proposals,
            &best,
            new_id,
            SparseFactorKind::Proximity,
            evidence,
        );
        let stereo = evidence.stereo_support(new_id);
        if stereo.count > 0 {
            proposals.push(
                FactorProposal {
                    key: SparseFactorKey {
                        from_keyframe_id: new_id,
                        to_keyframe_id: new_id,
                        kind: SparseFactorKind::Stereo,
                    },
                    support_count: stereo.count,
                    confidence: stereo.confidence,
                },
            );
        }
        assert(proposals@ =~= self@.config.proposals(self@.keyframe_order, new_id, *evidence));
        proposals
    }

    /// Refreshes or adds the factor of one proposal; says whether it was added and
    /// whether it was revived.
    fn apply_proposal(&mut self, proposal: FactorProposal) -> (outcome: (bool, bool))
        requires
            old(self)@.wf(),
        ensures
            final(self)@.wf(),
            final(self)@ == (GraphModel {
                factors: with_proposal(
                    old(self)@.factors,
                    proposal,
                    old(self)@.generation,
                    old(self)@.config,
                ),
                ..old(self)@
            }),
            outcome.0 == adds(old(self)@.factors, proposal),
            outcome.1 == revives(old(self)@.factors, proposal, old(self)@.config),
    {
        let ghost before = self@.factors;
        let p: usize = self.find_slot(proposal.key);
        if p < self.factors.len() && self.factors[p].key == proposal.key {
            let mut factor = self.factors[p];
            let revive: bool = factor.state == SparseFactorState::Inactive
                && self.config.reactivation_confidence.le(proposal.confidence);
            factor.support_count = proposal.support_count;
            factor.confidence = proposal.confidence;
            factor.last_scored_generation = self.generation;
            factor.low_confidence_streak = 0;
            factor.update_count = factor.update_count.saturating_add(1);
            if revive {
                factor.state = SparseFactorState::Active;
                factor.inactive_reason = None;
                factor.inactive_since_generation = None;
            }
            self.factors.set(p, factor);
            (false, revive)
        } else {
            let factor = SparseKeyframeFactor {
                key: proposal.key,
                state: SparseFactorState::Active,
                inactive_reason: None,
                support_count: proposal.support_count,
                confidence: proposal.confidence,
                measurement: SparseFactorMeasurement::geometric(
                    proposal.confidence,
                    self.config.geometric_damping,
                ),
                created_generation: self.generation,
                last_scored_generation: self.generation,
                inactive_since_generation: None,
                low_confidence_streak: 0,
                update_count: 1,
            };
            self.factors.insert(p, factor);
            proof {
                let after = self.factors@;
                assert forall|i: int, j: int| 0 <= i < j < after.len() implies (
                #[trigger] after[i]).key.before((#[trigger] after[j]).key) by {
                    if i < p && j > p {
                        assert(before[i].key.before(before[j - 1].key));
                    }
                    if i == p {
                        assert(!before[j - 1].key.before(proposal.key));
                        assert(before[j - 1].key != proposal.key) by {
                            assert(!key_at(before, j - 1, proposal.key));
                        }
                    }
                }
                assert forall|k: int| 0 <= k < after.len() implies (
                #[trigger] after[k]).coherent() by {
                    if k < p {
                        assert(after[k] == before[k]);
                    } else if k > p {
                        assert(after[k] == before[k - 1]);
                    }
                }
            }
            (true, false)
        }
    }

    /// Refreshes or adds the factors of a list of proposals; returns how many were
    /// added and how many were revived.
    fn apply_proposals(&mut self, proposals: &Vec<FactorProposal>) -> (counts: (usize, usize))
        requires
            old(self)@.wf(),
        ensures
            final(self)@.wf(),
            final(self)@ == (GraphModel {
                factors: with_proposals(
                    old(self)@.factors,
                    proposals@,
                    old(self)@.generation,
                    old(self)@.config,
                ),
                ..old(self)@
            }),
            counts.0 == added_by(
                old(self)@.factors,
                proposals@,
                old(self)@.generation,
                old(self)@.config,
            ),
            counts.1 == revived_by(
                old(self)@.factors,
                proposals@,
                old(self)@.generation,
                old(self)@.config,
            ),
    {
        let ghost first = self@;
        let mut added: usize = 0;
        let mut revived: usize = 0;
        let mut i: usize = 0;
        assert(self@ =~= (GraphModel {
            factors: with_proposals(
                first.factors,
                proposals@.take(0),
                first.generation,
                first.config,
            ),
            ..first
        }));
        while i < proposals.len()
            invariant
                i <= proposals.len(),
                self@.wf(),
                added <= i,
                revived <= i,
                self@ == (GraphModel {
                    factors: with_proposals(
                        first.factors,
                        proposals@.take(i as int),
                        first.generation,
                        first.config,
                    ),
                    ..first
                }),
                added == added_by(
                    first.factors,
                    proposals@.take(i as int),
                    first.generation,
                    first.config,
                ),
                revived == revived_by(
                    first.factors,
                    proposals@.take(i as int),
                    first.generation,
                    first.config,
                ),
            decreases proposals.len() - i,
        {
            assert(proposals@.take(i + 1).drop_last() =~= proposals@.take(i as int));
            let outcome = self.apply_proposal(proposals[i]);
            if outcome.0 {
                added += 1;
            }
            if outcome.1 {
                revived += 1;
            }
            i += 1;
        }
        proof {
            lemma_take_all(proposals@);
        }
        (added, revived)
    }

    /// The newest keyframes.
    fn active_keyframe_ids(&self) -> (window: Vec<u64>)
        ensures
            window@ == self@.window(),
    {
        last_ids(&self.keyframe_order, self.config.active_window_keyframes)
    }

    /// Scores every factor anew; returns how many were given up and how many were
    /// taken up again.
    fn rescore_existing(&mut self, evidence: &Evidence) -> (counts: (usize, usize))
        requires
            old(self)@.wf(),
            evidence.map.wf(),
        ensures
            final(self)@.wf(),
            final(self)@ == (GraphModel {
                factors: rescored_all(
                    old(self)@.factors,
                    old(self)@.window(),
                    old(self)@.generation,
                    old(self)@.config,
                    *evidence,
                ),
                ..old(self)@
            }),
            counts.0 == old(self)@.factors.filter(
                is_given_up(old(self)@.config, *evidence),
            ).len(),
            counts.1 == old(self)@.factors.filter(
                is_recovered(old(self)@.window(), old(self)@.config, *evidence),
            ).len(),
    {
        let ghost first = self@;
        let ghost target = rescored_all(
            first.factors,
            first.window(),
            first.generation,
            first.config,
            *evidence,
        );
        let ghost p = is_given_up(first.config, *evidence);
        let ghost q = is_recovered(first.window(), first.config, *evidence);
        let window = self.active_keyframe_ids();
        let mut given_up: usize = 0;
        let mut recovered: usize = 0;
        let mut i: usize = 0;
        while i < self.factors.len()
            invariant
                i <= self.factors.len(),
                evidence.map.wf(),
                first.wf(),
                window@ == first.window(),
                target == rescored_all(
                    first.factors,
                    first.window(),
                    first.generation,
                    first.config,
                    *evidence,
                ),
                p == is_given_up(first.config, *evidence),
                q == is_recovered(first.window(), first.config, *evidence),
                self.config == first.config,
                self.generation == first.generation,
                self.keyframe_order@ == first.keyframe_order,
                self.factors.len() == first.factors.len(),
                forall|k: int| 0 <= k < i ==> self.factors[k] == target[k],
                forall|k: int| i <= k < self.factors.len() ==> self.factors[k] == first.factors[k],
                given_up <= i,
                recovered <= i,
                given_up == first.factors.take(i as int).filter(p).len(),
                recovered == first.factors.take(i as int).filter(q).len(),
            decreases self.factors.len() - i,
        {
            proof {
                lemma_filter_take(first.factors, i as int, p);
                lemma_filter_take(first.factors, i as int, q);
            }
            let mut factor = self.factors[i];
            let support = if factor.key.kind == SparseFactorKind::Stereo {
                evidence.stereo_support(factor.key.from_keyframe_id)
            } else {
                evidence.pair_support(factor.key.from_keyframe_id, factor.key.to_keyframe_id)
            };
            factor.support_count = support.count;
            factor.confidence = support.confidence;
            factor.last_scored_generation = self.generation;
            if support.confidence.lt(self.config.minimum_active_confidence) {
                factor.low_confidence_streak = factor.low_confidence_streak.saturating_add(1);
            } else {
                factor.low_confidence_streak = 0;
            }
            let prunable: bool = factor.key.kind != SparseFactorKind::Temporal
                || !self.config.protect_temporal_from_confidence_pruning;
            let retired_for_confidence: bool = match factor.inactive_reason {
                Some(reason) => reason == SparseFactorInactiveReason::LowConfidence,
                None => false,
            };
            if factor.state == SparseFactorState::Active && prunable && factor.low_confidence_streak
                >= self.config.low_confidence_patience {
                factor.state = SparseFactorState::Inactive;
                factor.inactive_reason = Some(SparseFactorInactiveReason::LowConfidence);
                factor.inactive_since_generation = Some(self.generation);
                given_up += 1;
            } else if factor.state == SparseFactorState::Inactive && retired_for_confidence
                && self.config.reactivation_confidence.le(support.confidence) && (contains_id(
                &window,
                factor.key.from_keyframe_id,
            ) || contains_id(&window, factor.key.to_keyframe_id)) {
                factor.state = SparseFactorState::Active;
                factor.inactive_reason = None;
                factor.inactive_since_generation = None;
                factor.low_confidence_streak = 0;
                recovered += 1;
            }
            assert(factor == target[i as int]);
            self.factors.set(i, factor);
            i += 1;
        }
        proof {
            lemma_take_all(first.factors);
            assert(self.factors@ =~= target);
            lemma_same_keys(first.factors, target);
        }
        (given_up, recovered)
    }

    /// Retires the active factors outside the active window; returns how many.
    fn retire_outside_active_window(&mut self) -> (count: usize)
        requires
            old(self)@.wf(),
        ensures
            final(self)@.wf(),
            final(self)@ == (GraphModel {
                factors: aged_all(
                    old(self)@.factors,
                    old(self)@.window(),
                    old(self)@.generation,
                ),
                ..old(self)@
            }),
            count == old(self)@.factors.filter(is_outside_of(old(self)@.window())).len(),
    {
        let ghost first = self@;
        let ghost target = aged_all(first.factors, first.window(), first.generation);
        let ghost p = is_outside_of(first.window());
        let window = self.active_keyframe_ids();
        let mut count: usize = 0;
        let mut i: usize = 0;
        while i < self.factors.len()
            invariant
                i <= self.factors.len(),
                window@ == first.window(),
                target == aged_all(first.factors, first.window(), first.generation),
                p == is_outside_of(first.window()),
                self.config == first.config,
                self.generation == first.generation,
                self.keyframe_order@ == first.keyframe_order,
                self.factors.len() == first.factors.len(),
                forall|k: int| 0 <= k < i ==> self.factors[k] == target[k],
                forall|k: int| i <= k < self.factors.len() ==> self.factors[k] == first.factors[k],
                count <= i,
                count == first.factors.take(i as int).filter(p).len(),
            decreases self.factors.len() - i,
        {
            proof {
                lemma_filter_take(first.factors, i as int, p);
            }
            let mut factor = self.factors[i];
            if factor.state == SparseFactorState::Active && !contains_id(
                &window,
                factor.key.from_keyframe_id,
            ) && !contains_id(&window, factor.key.to_keyframe_id) {
                factor.state = SparseFactorState::Inactive;
                factor.inactive_reason = Some(SparseFactorInactiveReason::WindowAge);
                factor.inactive_since_generation = Some(self.generation);
                count += 1;
            }
            assert(factor == target[i as int]);
            self.factors.set(i, factor);
            i += 1;
        }
        proof {
            lemma_take_all(first.factors);
            assert(self.factors@ =~= target);
            lemma_same_keys(first.factors, target);
        }
        count
    }

    /// Forgets factors that have been inactive for too long; returns how many.
    fn prune_stale_inactive(&mut self) -> (count: usize)
        requires
            old(self)@.wf(),
        ensures
            final(self)@.wf(),
            final(self)@ == (GraphModel {
                factors: old(self)@.factors.filter(
                    is_kept(old(self)@.generation, old(self)@.config.max_inactive_age_generations),
                ),
                ..old(self)@
            }),
            count == old(self)@.factors.len() - final(self)@.factors.len(),
    {
        let ghost first = self@;
        let ghost p = is_kept(first.generation, first.config.max_inactive_age_generations);
        let before: usize = self.factors.len();
        let mut kept: Vec<SparseKeyframeFactor> = Vec::new();
        let mut i: usize = 0;
        while i < self.factors.len()
            invariant
                i <= self.factors.len(),
                self@ == first,
                p == is_kept(first.generation, first.config.max_inactive_age_generations),
                kept@ == first.factors.take(i as int).filter(p),
            decreases self.factors.len() - i,
        {
            proof {
                lemma_filter_take(first.factors, i as int, p);
            }
            let factor = self.factors[i];
            let keep: bool = factor.state == SparseFactorState::Active || match factor.inactive_since_generation {
                Some(since) => self.generation.saturating_sub(since)
                    <= self.config.max_inactive_age_generations,
                None => false,
            };
            if keep {
                kept.push(factor);
            }
            i += 1;
        }
        proof {
            lemma_take_all(first.factors);
            lemma_filter_keeps_wf(first.factors, p);
            first.factors.lemma_filter_len(p);
        }
        self.factors = kept;
        before - self.factors.len()
    }

    /// The positions of the active factors.
    fn active_positions(&self) -> (at: Vec<usize>)
        ensures
            at.len() == self@.factors.filter(is_active()).len(),
            forall|m: int| 0 <= m < at.len() ==> (#[trigger] at[m]) < self@.factors.len(),
            forall|m: int| 0 <= m < at.len() ==> self@.factors[#[trigger] at[m] as int].active(),
            forall|m: int, n: int| 0 <= m < n < at.len() ==> at[m] < at[n],
            forall|k: int|
                0 <= k < self@.factors.len() && (#[trigger] self@.factors[k]).active()
                    ==> at@.contains(k as usize),
    {
        let ghost p = is_active();
        let mut at: Vec<usize> = Vec::new();
        let mut i: usize = 0;
        while i < self.factors.len()
            invariant
                i <= self.factors.len(),
                p == is_active(),
                at.len() == self.factors@.take(i as int).filter(p).len(),
                forall|m: int| 0 <= m < at.len() ==> (#[trigger] at[m]) < i,
                forall|m: int|
                    0 <= m < at.len() ==> self.factors[#[trigger] at[m] as int].active(),
                forall|m: int, n: int| 0 <= m < n < at.len() ==> at[m] < at[n],
                forall|k: int|
                    0 <= k < i && (#[trigger] self.factors[k]).active() ==> at@.contains(
                        k as usize,
                    ),
            decreases self.factors.len() - i,
        {
            proof {
                lemma_filter_take(self.factors@, i as int, p);
            }
            if self.factors[i].state == SparseFactorState::Active {
                let ghost shorter = at@;
                at.push(i);
                proof {
                    assert forall|k: int| 0 <= k < i + 1 && (#[trigger] self.factors[k]).active() implies at@.contains(
                    k as usize) by {
                        if k < i {
                            let m = shorter.index_of(k as usize);
                            assert(at@[m] == k as usize);
                        } else {
                            assert(at@[at.len() - 1] == k as usize);
                        }
                    }
                }
            }
            i += 1;
        }
        proof {
            lemma_take_all(self.factors@);
        }
        at
    }

    /// Retires active factors until the budget is met; returns how many.
    fn enforce_active_budget(&mut self) -> (count: usize)
        requires
            old(self)@.wf(),
        ensures
            final(self)@.wf(),
            final(self)@ == (GraphModel { factors: final(self)@.factors, ..old(self)@ }),
            is_budget_cut(
                old(self)@.factors,
                final(self)@.factors,
                old(self)@.generation,
                old(self)@.config.max_active_factors as int,
            ),
            count == old(self)@.factors.filter(is_active()).len() - final(self)@.factors.filter(
                is_active(),
            ).len(),
    {
        let ghost first = self@;
        let ghost p = is_active();
        let at = self.active_positions();
        if at.len() <= self.config.max_active_factors {
            return 0;
        }
        let mut keys: Vec<SortKey> = Vec::new();
        let mut i: usize = 0;
        while i < at.len()
            invariant
                i <= at.len(),
                self@ == first,
                forall|m: int| 0 <= m < at.len() ==> (#[trigger] at[m]) < first.factors.len(),
                keys.len() == i,
                forall|m: int|
                    0 <= m < i ==> #[trigger] keys[m] == budget_key(first.factors[at[m] as int]),
            decreases at.len() - i,
        {
            let factor = self.factors[at[i]];
            let protected: bool = factor.key.kind == SparseFactorKind::Temporal || factor.key.kind
                == SparseFactorKind::Stereo;
            keys.push(
                SortKey {
                    a: if protected {
                        1
                    } else {
                        0
                    },
                    b: factor.confidence.total_rank(),
                    c: factor.created_generation as i128,
                    d: 0,
                    e: 0,
                },
            );
            i += 1;
        }
        let order = stable_order(&keys);
        let retire_count: usize = at.len() - self.config.max_active_factors;
        let mut n: usize = 0;
        while n < retire_count
            invariant
                n <= retire_count <= at.len(),
                first.wf(),
                p == is_active(),
                self.config == first.config,
                self.generation == first.generation,
                self.keyframe_order@ == first.keyframe_order,
                self.factors.len() == first.factors.len(),
                order.len() == at.len(),
                keys.len() == at.len(),
                is_stable_order(keys@, order@),
                forall|m: int| 0 <= m < at.len() ==> (#[trigger] at[m]) < first.factors.len(),
                forall|m: int|
                    0 <= m < at.len() ==> first.factors[#[trigger] at[m] as int].active(),
                forall|m: int, l: int| 0 <= m < l < at.len() ==> at[m] < at[l],
                forall|m: int|
                    0 <= m < order.len() ==> #[trigger] self.factors[at[order[m] as int] as int]
                        == if m < n {
                        first.factors[at[order[m] as int] as int].retired(
                            SparseFactorInactiveReason::ActiveBudget,
                            first.generation,
                        )
                    } else {
                        first.factors[at[order[m] as int] as int]
                    },
                forall|k: int|
                    0 <= k < first.factors.len() && !(#[trigger] first.factors[k]).active()
                        ==> self.factors[k] == first.factors[k],
                self.factors@.filter(p).len() == first.factors.filter(p).len() - n,
            decreases retire_count - n,
        {
            let k: usize = at[order[n]];
            let ghost earlier = self.factors@;
            let mut factor = self.factors[k];
            assert(earlier[k as int] == first.factors[k as int]);
            factor.state = SparseFactorState::Inactive;
            factor.inactive_reason = Some(SparseFactorInactiveReason::ActiveBudget);
            factor.inactive_since_generation = Some(self.generation);
            self.factors.set(k, factor);
            proof {
                lemma_filter_update(earlier, k as int, factor, p);
                assert forall|m: int| 0 <= m < order.len() && m != n implies #[trigger] at[order[m] as int]
                    != k by {
                    if m < n {
                        assert(precedes(keys@, order[m], order[n as int]));
                    } else {
                        assert(precedes(keys@, order[n as int], order[m]));
                    }
                }
            }
            n += 1;
        }
        proof {
            let after = self.factors@;
            lemma_every_active_is_ordered(first.factors, at@, keys@, order@);
            assert forall|k: int| #![trigger after[k]] 0 <= k < first.factors.len() implies after[k]
                == first.factors[k] || (first.factors[k].active() && after[k]
                == first.factors[k].retired(
                SparseFactorInactiveReason::ActiveBudget,
                first.generation,
            )) by {
                if first.factors[k].active() {
                    let m = choose|m: int| 0 <= m < order.len() && at[#[trigger] order[m] as int] == k;
                    assert(self.factors[at[order[m] as int] as int] == after[k]);
                }
            }
            assert forall|i: int, j: int|
                #![trigger after[i], after[j]]
                0 <= i < after.len() && 0 <= j < after.len() && first.factors[i].active()
                    && !after[i].active() && after[j].active() implies goes_first(
                first.factors[i],
                first.factors[j],
            ) by {
                let m = choose|m: int| 0 <= m < order.len() && at[#[trigger] order[m] as int] == i;
                let l = choose|l: int| 0 <= l < order.len() && at[#[trigger] order[l] as int] == j;
                assert(self.factors[at[order[m] as int] as int] == after[i]);
                assert(self.factors[at[order[l] as int] as int] == after[j]);
                assert(m < n && n <= l);
                assert(precedes(keys@, order[m], order[l]));
                assert(keys[order[m] as int] == budget_key(first.factors[i]));
                assert(keys[order[l] as int] == budget_key(first.factors[j]));
            }
            lemma_same_keys(first.factors, after);
        }
        n
    }

    /// Counts the factors by state and kind.
    fn fill_counts(&self, stats: &mut SparseFactorGraphUpdateStats)
        requires
            old(stats).inactive == 0,
            old(stats).active_temporal == 0,
            old(stats).active_proximity == 0,
            old(stats).active_stereo == 0,
        ensures
            *final(stats) == (SparseFactorGraphUpdateStats {
                inactive: self@.factors.filter(is_inactive()).len() as usize,
                active_temporal: self@.factors.filter(
                    is_active_kind(SparseFactorKind::Temporal),
                ).len() as usize,
                active_proximity: self@.factors.filter(
                    is_active_kind(SparseFactorKind::Proximity),
                ).len() as usize,
                active_stereo: self@.factors.filter(
                    is_active_kind(SparseFactorKind::Stereo),
                ).len() as usize,
                ..*old(stats)
            }),
            final(stats).inactive == self@.factors.filter(is_inactive()).len(),
            final(stats).active_temporal == self@.factors.filter(
                is_active_kind(SparseFactorKind::Temporal),
            ).len(),
            final(stats).active_proximity == self@.factors.filter(
                is_active_kind(SparseFactorKind::Proximity),
            ).len(),
            final(stats).active_stereo == self@.factors.filter(
                is_active_kind(SparseFactorKind::Stereo),
            ).len(),
    {
        let ghost first = *stats;
        let ghost p = is_inactive();
        let ghost t = is_active_kind(SparseFactorKind::Temporal);
        let ghost r = is_active_kind(SparseFactorKind::Proximity);
        let ghost q = is_active_kind(SparseFactorKind::Stereo);
        let mut i: usize = 0;
        while i < self.factors.len()
            invariant
                i <= self.factors.len(),
                p == is_inactive(),
                t == is_active_kind(SparseFactorKind::Temporal),
                r == is_active_kind(SparseFactorKind::Proximity),
                q == is_active_kind(SparseFactorKind::Stereo),
                *stats == (SparseFactorGraphUpdateStats {
                    inactive: self.factors@.take(i as int).filter(p).len() as usize,
                    active_temporal: self.factors@.take(i as int).filter(t).len() as usize,
                    active_proximity: self.factors@.take(i as int).filter(r).len() as usize,
                    active_stereo: self.factors@.take(i as int).filter(q).len() as usize,
                    ..first
                }),
            decreases self.factors.len() - i,
        {
            proof {
                lemma_filter_take(self.factors@, i as int, p);
                lemma_filter_take(self.factors@, i as int, t);
                lemma_filter_take(self.factors@, i as int, r);
                lemma_filter_take(self.factors@, i as int, q);
            }
            match self.factors[i].state {
                SparseFactorState::Inactive => {
                    stats.inactive = stats.inactive + 1;
                },
                SparseFactorState::Active => {
                    match self.factors[i].key.kind {
                        SparseFactorKind::Temporal => {
                            stats.active_temporal = stats.active_temporal + 1;
                        },
                        SparseFactorKind::Proximity => {
                            stats.active_proximity = stats.active_proximity + 1;
                        },
                        SparseFactorKind::Stereo => {
                            stats.active_stereo = stats.active_stereo + 1;
                        },
                    }
                },
            }
            i += 1;
        }
        proof {
            lemma_take_all(self.factors@);
            self.factors@.lemma_filter_len(p);
            self.factors@.lemma_filter_len(t);
            self.factors@.lemma_filter_len(r);
            self.factors@.lemma_filter_len(q);
        }
    }

    /// Appends the new keyframe to the keyframes by age and drops those that left
    /// the map.
    fn update_order(&mut self, new_id: u64, map: &VisualMapSnapshot)
        requires
            old(self)@.wf(),
            map.wf(),
        ensures
            final(self)@.wf(),
            final(self)@ == (GraphModel {
                keyframe_order: next_order(old(self)@.keyframe_order, new_id, *map),
                ..old(self)@
            }),
    {
        let ghost first = self.keyframe_order@;
        if !contains_id(&self.keyframe_order, new_id) {
            self.keyframe_order.push(new_id);
        }
        let ghost longer = self.keyframe_order@;
        let ghost p = is_mapped(*map);
        let mut kept: Vec<u64> = Vec::new();
        let mut i: usize = 0;
        while i < self.keyframe_order.len()
            invariant
                i <= self.keyframe_order.len(),
                map.wf(),
                longer == self.keyframe_order@,
                p == is_mapped(*map),
                kept@ == longer.take(i as int).filter(p),
            decreases self.keyframe_order.len() - i,
        {
            proof {
                lemma_filter_take(longer, i as int, p);
            }
            if map.find(self.keyframe_order[i]).is_some() {
                kept.push(self.keyframe_order[i]);
            }
            i += 1;
        }
        proof {
            lemma_take_all(longer);
            let at = lemma_filter_positions(longer, p);
            assert(longer.no_duplicates());
            assert forall|i: int, j: int| 0 <= i < j < kept.len() implies kept@[i] != kept@[j] by {
                assert(at[i] < at[j]);
            }
        }
        self.keyframe_order = kept;
    }

    /// Updates proposals and lifecycle after a keyframe has been committed to the
    /// map.
    ///
    /// The new keyframe's proposals are taken in, every factor is rescored, factors
    /// outside the active window are retired, the active budget is enforced, and
    /// factors that have been inactive for too long are forgotten.
    pub fn update_from_map(
        &mut self,
        map: &VisualMapSnapshot,
        scores: &MapScores,
        new_keyframe_id: u64,
    ) -> (stats: SparseFactorGraphUpdateStats)
        requires
            old(self)@.wf(),
            map.wf(),
        ensures
            final(self)@.wf(),
            is_update(
                old(self)@,
                final(self)@,
                stats,
                new_keyframe_id,
                Evidence { map, scores },
            ),
    {
        let ghost first = self@;
        let evidence = Evidence { map, scores };
        self.generation = self.generation.saturating_add(1);
        self.update_order(new_keyframe_id, map);
        let proposals = self.propose_new_factors(new_keyframe_id, &evidence);
        let ghost ordered = self@;
        let (added, revived) = self.apply_proposals(&proposals);
        let ghost proposed = self@.factors;
        proof {
            assert(proposed.len() == self.factors.len());
            lemma_revived_are_active(
                first.factors,
                proposals@,
                ordered.generation,
                ordered.config,
            );
            lemma_filters_disjoint(
                proposed,
                is_active(),
                is_recovered(ordered.window(), ordered.config, evidence),
            );
        }
        let (given_up, recovered) = self.rescore_existing(&evidence);
        let inactivated_window_age: usize = self.retire_outside_active_window();
        let ghost before_cut = self@.factors;
        let inactivated_budget: usize = self.enforce_active_budget();
        let ghost cut = self@.factors;
        let pruned: usize = self.prune_stale_inactive();
        let mut stats = SparseFactorGraphUpdateStats {
            keyframe_id: new_keyframe_id,
            generation: self.generation,
            added,
            reactivated: revived + recovered,
            inactivated_low_confidence: given_up,
            inactivated_window_age,
            inactivated_budget,
            pruned,
            active_temporal: 0,
            active_proximity: 0,
            active_stereo: 0,
            inactive: 0,
        };
        self.fill_counts(&mut stats);
        assert(is_update_via(first, self@, cut, stats, new_keyframe_id, evidence));
        stats
    }

    /// The inactive factors that touch a keyframe, the most confident first: what a
    /// broader recovery pass should reconsider first.
    pub fn broader_recovery_candidates(&self, query_keyframe_id: u64, maximum: usize) -> (candidates:
        Vec<SparseKeyframeFactor>)
        ensures
            candidates@ == recovery_candidates(
                self@.factors,
                query_keyframe_id,
                maximum as int,
            ),
    {
        let ghost p = is_recovery_candidate(query_keyframe_id);
        let mut found: Vec<SparseKeyframeFactor> = Vec::new();
        let mut keys: Vec<SortKey> = Vec::new();
        let mut i: usize = 0;
        while i < self.factors.len()
            invariant
                i <= self.factors.len(),
                p == is_recovery_candidate(query_keyframe_id),
                found@ == self.factors@.take(i as int).filter(p),
                keys.len() == found.len(),
                forall|k: int| 0 <= k < keys.len() ==> keys[k] == recovery_key(found[k]),
            decreases self.factors.len() - i,
        {
            proof {
                lemma_filter_take(self.factors@, i as int, p);
            }
            let factor = self.factors[i];
            if factor.state == SparseFactorState::Inactive && (factor.key.from_keyframe_id
                == query_keyframe_id || factor.key.to_keyframe_id == query_keyframe_id) {
                found.push(factor);
                keys.push(
                    SortKey::two(-factor.confidence.total_rank(), -(factor.support_count as i128)),
                );
            }
            i += 1;
        }
        proof {
            lemma_take_all(self.factors@);
        }
        assert(keys@ =~= found@.map_values(|f: SparseKeyframeFactor| recovery_key(f)));
        let order = stable_order(&keys);
        let mut candidates: Vec<SparseKeyframeFactor> = Vec::new();
        let mut k: usize = 0;
        while k < order.len() && k < maximum
            invariant
                k <= order.len(),
                k <= maximum,
                order.len() == found.len(),
                forall|j: int| 0 <= j < order.len() ==> (#[trigger] order[j]) < found.len(),
                candidates.len() == k,
                forall|j: int| 0 <= j < k ==> candidates[j] == found[order[j] as int],
            decreases order.len() - k,
        {
            candidates.push(found[order[k]]);
            k += 1;
        }
        assert(candidates@ =~= recovery_candidates(
            self@.factors,
            query_keyframe_id,
            maximum as int,
        ));
        candidates
    }

    /// The other keyframes to which active temporal and proximity factors link a
    /// keyframe, in either direction.
    pub fn active_neighbor_keyframe_ids(&self, keyframe_id: u64) -> (neighbors: BTreeSet<u64>)
        ensures
            forall|id: u64|
                neighbors@.contains(id) <==> exists|k: int|
                    0 <= k < self@.factors.len() && links(
                        #[trigger] self@.factors[k],
                        keyframe_id,
                        id,
                    ),
    {
        broadcast use vstd::std_specs::btree::group_btree_axioms;

        let mut neighbors: BTreeSet<u64> = BTreeSet::new();
        let mut i: usize = 0;
        while i < self.factors.len()
            invariant
                i <= self.factors.len(),
                forall|id: u64|
                    neighbors@.contains(id) <==> exists|k: int|
                        0 <= k < i && links(#[trigger] self@.factors[k], keyframe_id, id),
            decreases self.factors.len() - i,
        {
            let factor = self.factors[i];
            let from: u64 = factor.key.from_keyframe_id;
            let to: u64 = factor.key.to_keyframe_id;
            let ghost before = neighbors@;
            if factor.state == SparseFactorState::Active && factor.key.kind
                != SparseFactorKind::Stereo {
                if from == keyframe_id && to != keyframe_id {
                    neighbors.insert(to);
                } else if to == keyframe_id && from != keyframe_id {
                    neighbors.insert(from);
                }
            }
            assert(forall|id: u64|
                neighbors@.contains(id) <==> before.contains(id) || links(factor, keyframe_id, id));
            i += 1;
            assert forall|id: u64|
                neighbors@.contains(id) <==> exists|k: int|
                    0 <= k < i && links(#[trigger] self@.factors[k], keyframe_id, id) by {
                if links(factor, keyframe_id, id) {
                    assert(links(self@.factors[i - 1], keyframe_id, id));
                }
            }
        }
        neighbors
    }
}

/// Selects the inactive factors that touch a keyframe.
pub open spec fn is_recovery_candidate(keyframe_id: u64) -> spec_fn(SparseKeyframeFactor) -> bool {
    |factor: SparseKeyframeFactor| !factor.active() && factor.key.touches(keyframe_id)
}

/// More confident factors come first, on equal confidence better supported ones.
pub open spec fn recovery_key(factor: SparseKeyframeFactor) -> SortKey {
    SortKey::two(-factor.confidence.total_rank() as i128, -(factor.support_count as i128) as i128)
}

/// The first `maximum` inactive factors that touch a keyframe, by confidence, by
/// support, and, since `factors` are sorted by it, by key.
pub open spec fn recovery_candidates(
    factors: Seq<SparseKeyframeFactor>,
    keyframe_id: u64,
    maximum: int,
) -> Seq<SparseKeyframeFactor> {
    let found = factors.filter(is_recovery_candidate(keyframe_id));
    let order = first_n(
        stable_order_of(found.map_values(|f: SparseKeyframeFactor| recovery_key(f))),
        maximum,
    );
    Seq::new(order.len(), |k: int| found[order[k] as int])
}

/// An active temporal or proximity factor that links two different keyframes.
pub open spec fn links(factor: SparseKeyframeFactor, keyframe_id: u64, other_id: u64) -> bool {
    &&& factor.active()
    &&& !(factor.key.kind is Stereo)
    &&& other_id != keyframe_id
    &&& factor.key.touches(keyframe_id)
    &&& factor.key.touches(other_id)
}

/// One update leads from `before` to `after` and reports `stats`; `cut` are the
/// factors after the budget was enforced.
pub open spec fn is_update_via(
    before: GraphModel,
    after: GraphModel,
    cut: Seq<SparseKeyframeFactor>,
    stats: SparseFactorGraphUpdateStats,
    new_id: u64,
    evidence: Evidence,
) -> bool {
    let config = before.config;
    let generation = next_count(before.generation);
    let order = next_order(before.keyframe_order, new_id, *evidence.map);
    let window = last_n(order, config.active_window_keyframes as int);
    let proposals = config.proposals(order, new_id, evidence);
    let proposed = with_proposals(before.factors, proposals, generation, config);
    let scored = rescored_all(proposed, window, generation, config, evidence);
    let current = aged_all(scored, window, generation);
    &&& after.config == config
    &&& after.generation == generation
    &&& after.keyframe_order == order
    &&& is_budget_cut(current, cut, generation, config.max_active_factors as int)
    &&& after.factors == cut.filter(is_kept(generation, config.max_inactive_age_generations))
    &&& stats.keyframe_id == new_id
    &&& stats.generation == generation
    &&& stats.added == added_by(before.factors, proposals, generation, config)
    &&& stats.reactivated == revived_by(before.factors, proposals, generation, config)
        + proposed.filter(is_recovered(window, config, evidence)).len()
    &&& stats.inactivated_low_confidence == proposed.filter(is_given_up(config, evidence)).len()
    &&& stats.inactivated_window_age == scored.filter(is_outside_of(window)).len()
    &&& stats.inactivated_budget == current.filter(is_active()).len() - cut.filter(
        is_active(),
    ).len()
    &&& stats.pruned == cut.len() - after.factors.len()
    &&& stats.active_temporal == after.factors.filter(
        is_active_kind(SparseFactorKind::Temporal),
    ).len()
    &&& stats.active_proximity == after.factors.filter(
        is_active_kind(SparseFactorKind::Proximity),
    ).len()
    &&& stats.active_stereo == after.factors.filter(
        is_active_kind(SparseFactorKind::Stereo),
    ).len()
    &&& stats.inactive == after.factors.filter(is_inactive()).len()
}

/// One update leads from `before` to `after` and reports `stats`.
pub open spec fn is_update(
    before: GraphModel,
    after: GraphModel,
    stats: SparseFactorGraphUpdateStats,
    new_id: u64,
    evidence: Evidence,
) -> bool {
    exists|cut: Seq<SparseKeyframeFactor>| #[trigger]
        is_update_via(before, after, cut, stats, new_id, evidence)
}

/// After an update no more factors are active than the budget allows, and each of
/// them touches the active window.
pub proof fn update_bounds_the_active_set(
    before: GraphModel,
    after: GraphModel,
    stats: SparseFactorGraphUpdateStats,
    new_id: u64,
    evidence: Evidence,
)
    requires
        is_update(before, after, stats, new_id, evidence),
    ensures
        after.factors.filter(is_active()).len() <= before.config.max_active_factors,
        forall|k: int|
            0 <= k < after.factors.len() && (#[trigger] after.factors[k]).active()
                ==> after.window().contains(after.factors[k].key.from_keyframe_id)
                || after.window().contains(after.factors[k].key.to_keyframe_id),
{
    let cut = choose|cut: Seq<SparseKeyframeFactor>| #[trigger]
        is_update_via(before, after, cut, stats, new_id, evidence);
    let kept = is_kept(after.generation, before.config.max_inactive_age_generations);
    lemma_filter_twice(cut, kept, is_active());
    let at = lemma_filter_positions(cut, kept);
    assert forall|k: int| 0 <= k < after.factors.len() && (
    #[trigger] after.factors[k]).active() implies after.window().contains(
        after.factors[k].key.from_keyframe_id,
    ) || after.window().contains(after.factors[k].key.to_keyframe_id) by {
        assert(cut[at[k]] == after.factors[k]);
    }
}

/// The counts of an update add up: every factor that is left is counted once, as
/// inactive or under its kind.
pub proof fn update_counts_every_factor(
    before: GraphModel,
    after: GraphModel,
    stats: SparseFactorGraphUpdateStats,
    new_id: u64,
    evidence: Evidence,
)
    requires
        is_update(before, after, stats, new_id, evidence),
    ensures
        stats.active_temporal + stats.active_proximity + stats.active_stereo + stats.inactive
            == after.factors.len(),
{
    lemma_kinds_add_up(after.factors);
}

proof fn lemma_kinds_add_up(factors: Seq<SparseKeyframeFactor>)
    ensures
        factors.filter(is_active_kind(SparseFactorKind::Temporal)).len() + factors.filter(
            is_active_kind(SparseFactorKind::Proximity),
        ).len() + factors.filter(is_active_kind(SparseFactorKind::Stereo)).len() + factors.filter(
            is_inactive(),
        ).len() == factors.len(),
    decreases factors.len(),
{
    reveal(Seq::filter);
    if factors.len() > 0 {
        lemma_kinds_add_up(factors.drop_last());
    }
}

/// After an update no factor has been inactive for longer than the maximum age.
pub proof fn update_forgets_stale_factors(
    before: GraphModel,
    after: GraphModel,
    stats: SparseFactorGraphUpdateStats,
    new_id: u64,
    evidence: Evidence,
)
    requires
        is_update(before, after, stats, new_id, evidence),
    ensures
        forall|k: int|
            0 <= k < after.factors.len() && !(#[trigger] after.factors[k]).active() ==> (
            after.factors[k].inactive_since_generation matches Some(since) && after.generation
                - since <= before.config.max_inactive_age_generations),
{
    let cut = choose|cut: Seq<SparseKeyframeFactor>| #[trigger]
        is_update_via(before, after, cut, stats, new_id, evidence);
    let kept = is_kept(after.generation, before.config.max_inactive_age_generations);
    let at = lemma_filter_positions(cut, kept);
    assert forall|k: int| 0 <= k < after.factors.len() implies kept(
        #[trigger] after.factors[k],
    ) by {
        assert(cut[at[k]] == after.factors[k]);
    }
}

/// Ordinary rescoring revives no factor that was retired for its age or for the
/// budget: such a factor stays as it is but for its scores.
pub proof fn rescoring_revives_only_low_confidence(
    factor: SparseKeyframeFactor,
    support: Support,
    window: Seq<u64>,
    generation: u64,
    config: SparseFactorGraphConfig,
)
    requires
        !factor.active(),
        factor.inactive_reason != Some(SparseFactorInactiveReason::LowConfidence),
    ensures
        rescored(factor, support, window, generation, config).state == factor.state,
        rescored(factor, support, window, generation, config).inactive_reason
            == factor.inactive_reason,
        rescored(factor, support, window, generation, config).inactive_since_generation
            == factor.inactive_since_generation,
{
}

/// An active temporal factor is never given up for low confidence while temporal
/// factors are protected from that.
pub proof fn protected_temporal_factors_survive_rescoring(
    factor: SparseKeyframeFactor,
    support: Support,
    window: Seq<u64>,
    generation: u64,
    config: SparseFactorGraphConfig,
)
    requires
        factor.active(),
        factor.key.kind is Temporal,
        config.protect_temporal_from_confidence_pruning,
    ensures
        rescored(factor, support, window, generation, config).active(),
{
}

/// The budget spares temporal and stereo factors as long as an active proximity
/// factor is left to retire.
pub proof fn budget_takes_proximity_factors_first(
    before: Seq<SparseKeyframeFactor>,
    after: Seq<SparseKeyframeFactor>,
    generation: u64,
    maximum: int,
    i: int,
    j: int,
)
    requires
        is_budget_cut(before, after, generation, maximum),
        0 <= i < before.len(),
        0 <= j < before.len(),
        before[i].active(),
        is_protected(before[i]),
        !after[i].active(),
        before[j].active(),
        before[j].key.kind is Proximity,
    ensures
        !after[j].active(),
{
}

/// The sort key by which the budget takes factors; equal ones go by position, and
/// so by factor key.
spec fn budget_key(factor: SparseKeyframeFactor) -> SortKey {
    SortKey {
        a: if is_protected(factor) {
            1
        } else {
            0
        },
        b: factor.confidence.total_rank(),
        c: factor.created_generation as i128,
        d: 0,
        e: 0,
    }
}

proof fn lemma_every_active_is_ordered(
    factors: Seq<SparseKeyframeFactor>,
    at: Seq<usize>,
    keys: Seq<SortKey>,
    order: Seq<usize>,
)
    requires
        is_stable_order(keys, order),
        keys.len() == at.len(),
        at.len() <= usize::MAX,
        factors.len() <= usize::MAX,
        forall|k: int|
            0 <= k < factors.len() && (#[trigger] factors[k]).active() ==> at.contains(k as usize),
    ensures
        forall|k: int|
            0 <= k < factors.len() && (#[trigger] factors[k]).active() ==> exists|m: int|
                0 <= m < order.len() && at[#[trigger] order[m] as int] == k,
{
    assert forall|k: int| 0 <= k < factors.len() && (#[trigger] factors[k]).active() implies exists|
        m: int,
    |
        0 <= m < order.len() && at[#[trigger] order[m] as int] == k by {
        let x = at.index_of(k as usize);
        stable_order_is_complete(keys, order, x as usize);
        let m = order.index_of(x as usize);
        assert(at[order[m] as int] == k);
    }
}

/// Every factor that a proposal revives is active afterwards.
proof fn lemma_revived_are_active(
    before: Seq<SparseKeyframeFactor>,
    proposals: Seq<FactorProposal>,
    generation: u64,
    config: SparseFactorGraphConfig,
)
    ensures
        revived_by(before, proposals, generation, config) <= with_proposals(
            before,
            proposals,
            generation,
            config,
        ).filter(is_active()).len(),
    decreases proposals.len(),
{
    if proposals.len() > 0 {
        let rest = proposals.drop_last();
        lemma_revived_are_active(before, rest, generation, config);
        let factors = with_proposals(before, rest, generation, config);
        let proposal = proposals.last();
        let k = slot(factors, proposal.key);
        lemma_slot_bounds(factors, proposal.key);
        if adds(factors, proposal) {
            lemma_filter_insert(factors, k, fresh(proposal, generation, config), is_active());
        } else {
            lemma_filter_update(
                factors,
                k,
                refreshed(factors[k], proposal, generation, config),
                is_active(),
            );
        }
    }
}

proof fn lemma_slot_bounds(factors: Seq<SparseKeyframeFactor>, key: SparseFactorKey)
    ensures
        0 <= slot(factors, key) <= factors.len(),
    decreases factors.len(),
{
    if factors.len() > 0 {
        lemma_slot_bounds(factors.drop_last(), key);
    }
}

/// Factors whose keys did not change are still sorted by key.
proof fn lemma_same_keys(before: Seq<SparseKeyframeFactor>, after: Seq<SparseKeyframeFactor>)
    requires
        sorted_by_key(before),
        after.len() == before.len(),
        forall|k: int| 0 <= k < before.len() ==> (#[trigger] after[k]).key == before[k].key,
    ensures
        sorted_by_key(after),
{
}

proof fn lemma_filter_keeps_wf(
    factors: Seq<SparseKeyframeFactor>,
    p: spec_fn(SparseKeyframeFactor) -> bool,
)
    requires
        sorted_by_key(factors),
        forall|k: int| 0 <= k < factors.len() ==> (#[trigger] factors[k]).coherent(),
    ensures
        sorted_by_key(factors.filter(p)),
        forall|k: int|
            0 <= k < factors.filter(p).len() ==> (#[trigger] factors.filter(p)[k]).coherent(),
{
    let at = lemma_filter_positions(factors, p);
    let kept = factors.filter(p);
    assert forall|i: int, j: int| 0 <= i < j < kept.len() implies (#[trigger] kept[i]).key.before(
        (#[trigger] kept[j]).key,
    ) by {
        assert(at[i] < at[j]);
        assert(factors[at[i]].key.before(factors[at[j]].key));
    }
    assert forall|k: int| 0 <= k < kept.len() implies (#[trigger] kept[k]).coherent() by {
        assert(factors[at[k]].coherent());
    }
}

/// A factor is active exactly where it has no reason for inactivity, and exactly where it has
/// no generation since which it is inactive.
pub proof fn activity_is_recorded(graph: GraphModel, k: int)
    requires
        graph.wf(),
        0 <= k < graph.factors.len(),
    ensures
        graph.factors[k].active() <==> graph.factors[k].inactive_reason is None,
        graph.factors[k].active() <==> graph.factors[k].inactive_since_generation is None,
{
    assert(graph.factors[k].coherent());
}

proof fn lemma_pair_proposals(
    ids: Seq<u64>,
    new_id: u64,
    kind: SparseFactorKind,
    evidence: Evidence,
)
    ensures
        pair_proposals(ids, new_id, kind, evidence).len() == 2 * ids.len(),
        forall|k: int|
            #![trigger ids[k]]
            0 <= k < ids.len() ==> pair_proposals(ids, new_id, kind, evidence)[2 * k]
                == directed_proposal(ids[k], new_id, kind, evidence.pair(ids[k], new_id))
                && pair_proposals(ids, new_id, kind, evidence)[2 * k + 1] == directed_proposal(
                new_id,
                ids[k],
                kind,
                evidence.pair(ids[k], new_id),
            ),
    decreases ids.len(),
{
    if ids.len() > 0 {
        let rest = ids.drop_last();
        lemma_pair_proposals(rest, new_id, kind, evidence);
        let all = pair_proposals(ids, new_id, kind, evidence);
        let before = pair_proposals(rest, new_id, kind, evidence);
        assert forall|k: int| #![trigger ids[k]] 0 <= k < ids.len() implies all[2 * k]
            == directed_proposal(ids[k], new_id, kind, evidence.pair(ids[k], new_id)) && all[2 * k
            + 1] == directed_proposal(new_id, ids[k], kind, evidence.pair(ids[k], new_id)) by {
            if k < rest.len() {
                assert(rest[k] == ids[k]);
                assert(all[2 * k] == before[2 * k]);
                assert(all[2 * k + 1] == before[2 * k + 1]);
            }
        }
    }
}

/// The key joins the new keyframe and another, in either direction.
pub open spec fn joins_new(key: SparseFactorKey, new_id: u64, other: u64) -> bool {
    ||| key.from_keyframe_id == other && key.to_keyframe_id == new_id
    ||| key.from_keyframe_id == new_id && key.to_keyframe_id == other
}

/// Where a proposal comes from, by its kind and position.
proof fn lemma_proposal_source(
    config: SparseFactorGraphConfig,
    order: Seq<u64>,
    new_id: u64,
    evidence: Evidence,
    p: int,
) -> (k: int)
    requires
        0 <= p < config.proposals(order, new_id, evidence).len(),
    ensures
        ({
            let proposal = config.proposals(order, new_id, evidence)[p];
            let temporal = config.temporal_ids(order, new_id);
            let proximity = config.proximity_ids(order, new_id, evidence);
            &&& evidence.map.has(new_id)
            &&& evidence.map.keyframe(new_id).has_pose
            &&& proposal.key.kind is Temporal ==> 0 <= k < temporal.len() && joins_new(
                proposal.key,
                new_id,
                temporal[k],
            ) && proposal.support_count == evidence.pair(temporal[k], new_id).count
                && proposal.confidence == evidence.pair(temporal[k], new_id).confidence
            &&& proposal.key.kind is Proximity ==> 0 <= k < proximity.len() && joins_new(
                proposal.key,
                new_id,
                proximity[k],
            ) && proposal.support_count == evidence.pair(proximity[k], new_id).count
                && proposal.confidence == evidence.pair(proximity[k], new_id).confidence
            &&& proposal.key.kind is Stereo ==> proposal.key.from_keyframe_id == new_id
                && proposal.key.to_keyframe_id == new_id && proposal.support_count
                == evidence.stereo(new_id).count && proposal.support_count > 0
                && proposal.confidence == evidence.stereo(new_id).confidence
        }),
{
    let temporal = config.temporal_ids(order, new_id);
    let proximity = config.proximity_ids(order, new_id, evidence);
    let first = pair_proposals(temporal, new_id, SparseFactorKind::Temporal, evidence);
    let second = pair_proposals(proximity, new_id, SparseFactorKind::Proximity, evidence);
    lemma_pair_proposals(temporal, new_id, SparseFactorKind::Temporal, evidence);
    lemma_pair_proposals(proximity, new_id, SparseFactorKind::Proximity, evidence);
    let all = config.proposals(order, new_id, evidence);
    if p < first.len() {
        let k = p / 2;
        assert(all[p] == first[p]);
        assert(p == 2 * k || p == 2 * k + 1);
        let other = temporal[k];
        k
    } else if p < first.len() + second.len() {
        let q = p - first.len();
        let k = q / 2;
        assert(all[p] == second[q]);
        assert(q == 2 * k || q == 2 * k + 1);
        let other = proximity[k];
        k
    } else {
        0
    }
}

/// The distance that counts for a keyframe is the last one given for it.
pub open spec fn is_last_distance(
    distances: Seq<CenterDistance>,
    keyframe_id: u64,
    d: int,
) -> bool {
    &&& 0 <= d < distances.len()
    &&& distances[d].keyframe_id == keyframe_id
    &&& forall|later: int|
        d < later < distances.len() ==> (#[trigger] distances[later]).keyframe_id != keyframe_id
}

proof fn lemma_center_distance(distances: Seq<CenterDistance>, keyframe_id: u64) -> (d: int)
    ensures
        is_last_distance(distances, keyframe_id, d) && distances[d].distance == center_distance(
            distances,
            keyframe_id,
        ) || center_distance(distances, keyframe_id) == Scalar::infinity(),
        forall|e: int| #[trigger]
            is_last_distance(distances, keyframe_id, e) ==> distances[e].distance
                == center_distance(distances, keyframe_id),
    decreases distances.len(),
{
    if distances.len() == 0 {
        0
    } else if distances.last().keyframe_id == keyframe_id {
        assert forall|e: int| #[trigger] is_last_distance(distances, keyframe_id, e) implies e
            == distances.len() - 1 by {
            if e < distances.len() - 1 {
                assert(distances[distances.len() - 1].keyframe_id != keyframe_id);
            }
        }
        distances.len() - 1
    } else {
        let rest = distances.drop_last();
        let d = lemma_center_distance(rest, keyframe_id);
        assert forall|e: int| #[trigger]
            is_last_distance(distances, keyframe_id, e) implies distances[e].distance
            == center_distance(distances, keyframe_id) by {
            assert forall|later: int| e < later < rest.len() implies (
            #[trigger] rest[later]).keyframe_id != keyframe_id by {
                assert(rest[later] == distances[later]);
            }
            assert(is_last_distance(rest, keyframe_id, e));
        }
        if is_last_distance(rest, keyframe_id, d) {
            assert forall|later: int| d < later < distances.len() implies (
            #[trigger] distances[later]).keyframe_id != keyframe_id by {
                if later < rest.len() {
                    assert(rest[later] == distances[later]);
                }
            }
        }
        d
    }
}

/// How many of the one keyframe's landmarks the other keyframe observes too.
pub open spec fn common_landmarks(left: MapKeyframe, right: MapKeyframe) -> nat {
    count_where(
        right.landmark_ids@.len(),
        |m: int| left.landmark_ids@.contains(right.landmark_ids@[m]),
    )
}

proof fn lemma_shared(evidence: Evidence, left_id: u64, right_id: u64, l: int, r: int)
    requires
        evidence.map.wf(),
        evidence.map.is_at(l, left_id),
        evidence.map.is_at(r, right_id),
    ensures
        evidence.map.has(left_id),
        evidence.map.has(right_id),
        evidence.map.keyframe(left_id) == evidence.map.keyframes[l],
        evidence.map.keyframe(right_id) == evidence.map.keyframes[r],
        evidence.pair(left_id, right_id).count == common_landmarks(
            evidence.map.keyframes[l],
            evidence.map.keyframes[r],
        ),
{
    let map = *evidence.map;
    let i = choose|k: int| map.is_at(k, left_id);
    assert(map.is_at(i, left_id));
    assert(i == l) by {
        if i < l {
            assert(map.keyframes[i].id != map.keyframes[l].id);
        } else if l < i {
            assert(map.keyframes[l].id != map.keyframes[i].id);
        }
    }
    let j = choose|k: int| map.is_at(k, right_id);
    assert(map.is_at(j, right_id));
    assert(j == r) by {
        if j < r {
            assert(map.keyframes[j].id != map.keyframes[r].id);
        } else if r < j {
            assert(map.keyframes[r].id != map.keyframes[j].id);
        }
    }
    let seen = map.keyframes[l].landmark_ids@;
    let ids = map.keyframes[r].landmark_ids@;
    lemma_filter_count(ids, is_one_of(seen));
    lemma_count_same(
        ids.len(),
        |k: int| is_one_of(seen)(ids[k]),
        |m: int| seen.contains(ids[m]),
    );
    ids.lemma_filter_len(is_one_of(seen));
    assert(map.keyframes[r].landmark_ids.len() == ids.len());
}

/// A proposed proximity factor joins the new keyframe with an earlier one that has a pose
/// and is no temporal neighbour; the camera centres of the two are not farther apart than
/// the radius; and they share at least the required number of landmarks, which is the
/// factor's support.
pub proof fn proximity_factors_join_near_keyframes(
    config: SparseFactorGraphConfig,
    order: Seq<u64>,
    new_id: u64,
    evidence: Evidence,
    p: int,
) -> (at: (u64, int, int, int))
    requires
        config.valid(),
        order.len() <= usize::MAX,
        evidence.map.wf(),
        0 <= p < config.proposals(order, new_id, evidence).len(),
        config.proposals(order, new_id, evidence)[p].key.kind is Proximity,
    ensures
        ({
            let proposal = config.proposals(order, new_id, evidence)[p];
            let (other, l, r, d) = at;
            &&& joins_new(proposal.key, new_id, other)
            &&& other != new_id
            &&& order.contains(other)
            &&& !config.temporal_ids(order, new_id).contains(other)
            &&& is_last_distance(evidence.scores.distances@, other, d)
            &&& !config.proximity_radius_meters.lt(evidence.scores.distances@[d].distance)
            &&& evidence.map.is_at(l, other)
            &&& evidence.map.is_at(r, new_id)
            &&& evidence.map.keyframes[l].has_pose
            &&& evidence.map.keyframes[r].has_pose
            &&& proposal.support_count == common_landmarks(
                evidence.map.keyframes[l],
                evidence.map.keyframes[r],
            )
            &&& proposal.support_count >= config.proximity_min_shared_landmarks
        }),
{
    let k = lemma_proposal_source(config, order, new_id, evidence, p);
    let other = config.proximity_ids(order, new_id, evidence)[k];
    let linked = config.temporal_ids(order, new_id);
    let previous = order.filter(is_not(new_id));
    let q = is_near(linked, new_id, config, evidence);
    let near = previous.filter(q);
    let keys = near.map_values(|id: u64| proximity_key(id, new_id, evidence));
    previous.lemma_filter_len(q);
    order.lemma_filter_len(is_not(new_id));
    crate::order::stable_order_exists(keys);
    let sorted = stable_order_of(keys);
    assert(other == near[sorted[k] as int]);
    assert(near.contains(other));
    crate::sequences::lemma_filter_holds(previous, q, other);
    crate::sequences::lemma_filter_holds(order, is_not(new_id), other);
    let d = lemma_center_distance(evidence.scores.distances@, other);
    let l = choose|k: int| evidence.map.is_at(k, other);
    let r = choose|k: int| evidence.map.is_at(k, new_id);
    lemma_shared(evidence, other, new_id, l, r);
    (other, l, r, d)
}

/// An earlier keyframe that is near enough, shares enough landmarks and is no temporal
/// neighbour gets its two proximity factors, unless as many as are allowed go to others; and
/// then none of those others has a lower confidence, nor, with the same confidence, less
/// support, nor, with that the same too, a centre farther away.
pub proof fn near_keyframes_are_proposed(
    config: SparseFactorGraphConfig,
    order: Seq<u64>,
    new_id: u64,
    evidence: Evidence,
    other: u64,
    l: int,
    r: int,
    d: int,
)
    requires
        config.valid(),
        order.len() <= usize::MAX,
        evidence.map.wf(),
        other != new_id,
        order.contains(other),
        !config.temporal_ids(order, new_id).contains(other),
        evidence.map.is_at(l, other),
        evidence.map.is_at(r, new_id),
        evidence.map.keyframes[l].has_pose,
        evidence.map.keyframes[r].has_pose,
        is_last_distance(evidence.scores.distances@, other, d),
        !config.proximity_radius_meters.lt(evidence.scores.distances@[d].distance),
        common_landmarks(evidence.map.keyframes[l], evidence.map.keyframes[r])
            >= config.proximity_min_shared_landmarks,
    ensures
        ({
            let proposals = config.proposals(order, new_id, evidence);
            let chosen = config.proximity_ids(order, new_id, evidence);
            let support = Support {
                count: common_landmarks(
                    evidence.map.keyframes[l],
                    evidence.map.keyframes[r],
                ) as usize,
                confidence: pair_confidence(evidence.scores.pairs@, other, new_id),
            };
            &&& chosen.contains(other) ==> proposals.contains(
                FactorProposal {
                    key: SparseFactorKey {
                        from_keyframe_id: other,
                        to_keyframe_id: new_id,
                        kind: SparseFactorKind::Proximity,
                    },
                    support_count: support.count,
                    confidence: support.confidence,
                },
            ) && proposals.contains(
                FactorProposal {
                    key: SparseFactorKey {
                        from_keyframe_id: new_id,
                        to_keyframe_id: other,
                        kind: SparseFactorKind::Proximity,
                    },
                    support_count: support.count,
                    confidence: support.confidence,
                },
            )
            &&& !chosen.contains(other) ==> chosen.len()
                == config.max_proximity_neighbors_per_keyframe && forall|k: int|
                0 <= k < chosen.len() ==> {
                    let theirs = evidence.pair(#[trigger] chosen[k], new_id);
                    &&& support.confidence.total_rank() <= theirs.confidence.total_rank()
                    &&& support.confidence == theirs.confidence ==> support.count <= theirs.count
                    &&& support == theirs ==> center_distance(
                        evidence.scores.distances@,
                        chosen[k],
                    ).total_rank() <= evidence.scores.distances@[d].distance.total_rank()
                }
        }),
{
    lemma_shared(evidence, other, new_id, l, r);
    lemma_center_distance(evidence.scores.distances@, other);
    let linked = config.temporal_ids(order, new_id);
    let previous = order.filter(is_not(new_id));
    let q = is_near(linked, new_id, config, evidence);
    let near = previous.filter(q);
    let keys = near.map_values(|id: u64| proximity_key(id, new_id, evidence));
    previous.lemma_filter_len(q);
    order.lemma_filter_len(is_not(new_id));
    crate::order::stable_order_exists(keys);
    let sorted = stable_order_of(keys);
    crate::sequences::lemma_filter_holds(order, is_not(new_id), other);
    crate::sequences::lemma_filter_holds(previous, q, other);
    assert(near.contains(other));
    let chosen = config.proximity_ids(order, new_id, evidence);
    let proposals = config.proposals(order, new_id, evidence);
    let first = pair_proposals(linked, new_id, SparseFactorKind::Temporal, evidence);
    let second = pair_proposals(chosen, new_id, SparseFactorKind::Proximity, evidence);
    if chosen.contains(other) {
        let k = chosen.index_of(other);
        lemma_pair_proposals(chosen, new_id, SparseFactorKind::Proximity, evidence);
        assert(chosen[k] == other);
        assert(proposals[first.len() + 2 * k] == second[2 * k]);
        assert(proposals[first.len() + (2 * k + 1)] == second[2 * k + 1]);
    } else {
        let x = near.index_of(other) as usize;
        stable_order_is_complete(keys, sorted, x);
        let i = sorted.index_of(x);
        if i < chosen.len() {
            assert(chosen[i] == other);
        }
        assert forall|k: int| 0 <= k < chosen.len() implies ({
            let theirs = evidence.pair(#[trigger] chosen[k], new_id);
            let support = evidence.pair(other, new_id);
            &&& support.confidence.total_rank() <= theirs.confidence.total_rank()
            &&& support.confidence == theirs.confidence ==> support.count <= theirs.count
            &&& support == theirs ==> center_distance(
                evidence.scores.distances@,
                chosen[k],
            ).total_rank() <= evidence.scores.distances@[d].distance.total_rank()
        }) by {
            assert(precedes(keys, sorted[k], sorted[i]));
            assert(keys[sorted[k] as int] == proximity_key(chosen[k], new_id, evidence));
        }
    }
}

/// The temporal neighbours are the last keyframes of the order but the new one: as many as
/// the radius says, or all where there are fewer, and with one of them every later one.
pub proof fn temporal_neighbours_are_the_latest(
    config: SparseFactorGraphConfig,
    order: Seq<u64>,
    new_id: u64,
)
    requires
        order.no_duplicates(),
    ensures
        ({
            let ids = config.temporal_ids(order, new_id);
            let others = count_where(order.len(), |i: int| order[i] != new_id);
            &&& ids.len() == if others <= config.temporal_radius {
                others as int
            } else {
                config.temporal_radius as int
            }
            &&& forall|i: int, j: int|
                #![trigger ids[i], ids[j]]
                0 <= i < j < ids.len() ==> ids[i] < ids[j]
            &&& forall|id: u64| #[trigger] ids.contains(id) ==> id != new_id && order.contains(id)
            &&& forall|i: int, j: int|
                #![trigger order[i], order[j]]
                0 <= i < j < order.len() && ids.contains(order[i]) && order[j] != new_id
                    ==> ids.contains(order[j])
        }),
{
    let p = is_not(new_id);
    let others = order.filter(p);
    let at = lemma_filter_positions(order, p);
    let latest = last_n(others, config.temporal_radius as int);
    lemma_filter_count(order, p);
    lemma_count_same(order.len(), |k: int| p(order[k]), |i: int| order[i] != new_id);
    let skipped = others.len() - latest.len();
    assert forall|i: int, j: int| 0 <= i < latest.len() && 0 <= j < latest.len() && i
        != j implies latest[i] != latest[j] by {
        let a = at[skipped + i];
        let b = at[skipped + j];
        assert(order[a] == latest[i] && order[b] == latest[j]);
        assert(a != b) by {
            if i < j {
                assert(at[skipped + i] < at[skipped + j]);
            } else {
                assert(at[skipped + j] < at[skipped + i]);
            }
        }
    }
    assert(latest.no_duplicates());
    crate::sequences::lemma_sorted_set_len(latest);
    crate::sequences::lemma_sorted_set_of(latest);
    let ids = config.temporal_ids(order, new_id);
    assert forall|id: u64| #[trigger] ids.contains(id) implies id != new_id && order.contains(
        id,
    ) by {
        assert(latest.contains(id));
        let i = latest.index_of(id);
        assert(order[at[skipped + i]] == id);
        assert(p(order[at[skipped + i]]));
    }
    assert forall|i: int, j: int|
        #![trigger order[i], order[j]]
        0 <= i < j < order.len() && ids.contains(order[i]) && order[j] != new_id implies ids.contains(
        order[j],
    ) by {
        assert(latest.contains(order[i]));
        let a = latest.index_of(order[i]);
        assert(order[at[skipped + a]] == order[i]);
        assert(at[skipped + a] == i);
        assert(p(order[j]));
        assert(at.contains(j));
        let b = at.index_of(j);
        assert(b >= skipped + a) by {
            if b < skipped + a {
                assert(at[b] < at[skipped + a]);
            }
        }
        assert(latest[b - skipped] == order[j]);
        assert(latest.contains(order[j]));
    }
}

/// A new keyframe with a pose is joined with each of its temporal neighbours, both ways,
/// and with itself where it has stereo observations; one that is not in the map, or has no
/// pose, gets no factor.
pub proof fn temporal_neighbours_are_joined(
    config: SparseFactorGraphConfig,
    order: Seq<u64>,
    new_id: u64,
    evidence: Evidence,
    other: u64,
)
    requires
        evidence.map.wf(),
    ensures
        ({
            let proposals = config.proposals(order, new_id, evidence);
            let posed = exists|k: int|
                #[trigger] evidence.map.is_at(k, new_id) && evidence.map.keyframes[k].has_pose;
            let stereo = count_where(
                evidence.map.stereo_frame_ids@.len(),
                |k: int| evidence.map.stereo_frame_ids@[k] == new_id,
            );
            &&& !posed ==> proposals.len() == 0
            &&& posed && config.temporal_ids(order, new_id).contains(other) ==> {
                &&& exists|p: int|
                    0 <= p < proposals.len() && (#[trigger] proposals[p]).key == (SparseFactorKey {
                        from_keyframe_id: other,
                        to_keyframe_id: new_id,
                        kind: SparseFactorKind::Temporal,
                    })
                &&& exists|p: int|
                    0 <= p < proposals.len() && (#[trigger] proposals[p]).key == (SparseFactorKey {
                        from_keyframe_id: new_id,
                        to_keyframe_id: other,
                        kind: SparseFactorKind::Temporal,
                    })
            }
            &&& (posed && stereo > 0) <==> exists|p: int|
                0 <= p < proposals.len() && (#[trigger] proposals[p]).key.kind is Stereo
            &&& forall|p: int|
                0 <= p < proposals.len() && (#[trigger] proposals[p]).key.kind is Stereo ==> {
                    &&& proposals[p].key.from_keyframe_id == new_id
                    &&& proposals[p].key.to_keyframe_id == new_id
                    &&& proposals[p].support_count == stereo
                }
            &&& forall|p: int|
                0 <= p < proposals.len() && (#[trigger] proposals[p]).key.kind is Temporal ==> {
                    ||| proposals[p].key.to_keyframe_id == new_id && config.temporal_ids(
                        order,
                        new_id,
                    ).contains(proposals[p].key.from_keyframe_id)
                    ||| proposals[p].key.from_keyframe_id == new_id && config.temporal_ids(
                        order,
                        new_id,
                    ).contains(proposals[p].key.to_keyframe_id)
                }
        }),
{
    let proposals = config.proposals(order, new_id, evidence);
    let temporal = config.temporal_ids(order, new_id);
    let first = pair_proposals(temporal, new_id, SparseFactorKind::Temporal, evidence);
    let proximity = config.proximity_ids(order, new_id, evidence);
    let second = pair_proposals(proximity, new_id, SparseFactorKind::Proximity, evidence);
    lemma_pair_proposals(temporal, new_id, SparseFactorKind::Temporal, evidence);
    lemma_pair_proposals(proximity, new_id, SparseFactorKind::Proximity, evidence);
    let ids = evidence.map.stereo_frame_ids@;
    lemma_filter_count(ids, is_frame(new_id));
    lemma_count_same(
        ids.len(),
        |k: int| is_frame(new_id)(ids[k]),
        |k: int| ids[k] == new_id,
    );
    ids.lemma_filter_len(is_frame(new_id));
    assert(evidence.map.stereo_frame_ids.len() == ids.len());
    let posed = exists|k: int|
        #[trigger] evidence.map.is_at(k, new_id) && evidence.map.keyframes[k].has_pose;
    if posed {
        let k = choose|k: int|
            #[trigger] evidence.map.is_at(k, new_id) && evidence.map.keyframes[k].has_pose;
        lemma_shared(evidence, new_id, new_id, k, k);
        if temporal.contains(other) {
            let i = temporal.index_of(other);
            assert(temporal[i] == other);
            assert(proposals[2 * i] == first[2 * i]);
            assert(proposals[2 * i + 1] == first[2 * i + 1]);
        }
        if evidence.stereo(new_id).count > 0 {
            assert(proposals[proposals.len() - 1].key.kind is Stereo);
        }
    } else if evidence.map.has(new_id) {
        let k = choose|k: int| evidence.map.is_at(k, new_id);
        assert(evidence.map.is_at(k, new_id));
    }
    assert forall|p: int| 0 <= p < proposals.len() && (
    #[trigger] proposals[p]).key.kind is Stereo implies posed && evidence.stereo(new_id).count > 0
        && proposals[p].key.from_keyframe_id == new_id && proposals[p].key.to_keyframe_id == new_id
        && proposals[p].support_count == evidence.stereo(new_id).count by {
        lemma_proposal_source(config, order, new_id, evidence, p);
    }
    assert forall|p: int| 0 <= p < proposals.len() && (
    #[trigger] proposals[p]).key.kind is Temporal implies ({
        ||| proposals[p].key.to_keyframe_id == new_id && temporal.contains(
            proposals[p].key.from_keyframe_id,
        )
        ||| proposals[p].key.from_keyframe_id == new_id && temporal.contains(
            proposals[p].key.to_keyframe_id,
        )
    }) by {
        let k = lemma_proposal_source(config, order, new_id, evidence, p);
        assert(temporal.contains(temporal[k]));
    }
}

/// A pair's confidence is that of the last entry for it, and zero where there is none; so
/// is a frame's stereo confidence.
pub proof fn the_last_score_counts(
    pairs: Seq<PairScore>,
    left_id: u64,
    right_id: u64,
    stereo: Seq<StereoScore>,
    frame_id: u64,
    k: int,
    s: int,
)
    ensures
        0 <= k < pairs.len() && pairs[k].left_id == left_id && pairs[k].right_id == right_id && (
        forall|later: int|
            k < later < pairs.len() ==> (#[trigger] pairs[later]).left_id != left_id
                || pairs[later].right_id != right_id) ==> pair_confidence(pairs, left_id, right_id)
            == pairs[k].confidence,
        (forall|later: int|
            0 <= later < pairs.len() ==> (#[trigger] pairs[later]).left_id != left_id
                || pairs[later].right_id != right_id) ==> pair_confidence(pairs, left_id, right_id)
            == Scalar::zero(),
        0 <= s < stereo.len() && stereo[s].frame_id == frame_id && (forall|later: int|
            s < later < stereo.len() ==> (#[trigger] stereo[later]).frame_id != frame_id)
            ==> stereo_confidence(stereo, frame_id) == stereo[s].confidence,
        (forall|later: int|
            0 <= later < stereo.len() ==> (#[trigger] stereo[later]).frame_id != frame_id)
            ==> stereo_confidence(stereo, frame_id) == Scalar::zero(),
    decreases pairs.len() + stereo.len(),
{
    if pairs.len() > 0 {
        let rest = pairs.drop_last();
        the_last_score_counts(rest, left_id, right_id, stereo, frame_id, k, s);
        assert(pairs[pairs.len() - 1] == pairs.last());
        assert forall|i: int| 0 <= i < rest.len() implies #[trigger] rest[i] == pairs[i] by {}
    } else if stereo.len() > 0 {
        let rest = stereo.drop_last();
        the_last_score_counts(pairs, left_id, right_id, rest, frame_id, k, s);
        assert(stereo[stereo.len() - 1] == stereo.last());
        assert forall|i: int| 0 <= i < rest.len() implies #[trigger] rest[i] == stereo[i] by {}
    }
}

/// A confidence is brought into the unit interval, and left alone inside it.
pub proof fn clamping_stays_in_the_unit_interval(value: Scalar)
    requires
        !value.is_nan(),
    ensures
        Scalar::zero().le(clamp_to_unit(value)),
        clamp_to_unit(value).le(Scalar::one()),
        Scalar::zero().le(value) && value.le(Scalar::one()) ==> clamp_to_unit(value) == value,
        value.le(Scalar::zero()) ==> clamp_to_unit(value).le(Scalar::zero()),
        Scalar::one().le(value) ==> Scalar::one().le(clamp_to_unit(value)),
{
}

/// The order of keys compares the first keyframe, then the second, then the kind: temporal
/// before proximity before stereo. It is total.
pub proof fn keys_are_ordered_by_their_keyframes(left: SparseFactorKey, right: SparseFactorKey)
    ensures
        left.from_keyframe_id < right.from_keyframe_id ==> left.before(right),
        left.from_keyframe_id == right.from_keyframe_id && left.to_keyframe_id
            < right.to_keyframe_id ==> left.before(right),
        left.from_keyframe_id == right.from_keyframe_id && left.to_keyframe_id
            == right.to_keyframe_id && left.kind is Temporal && !(right.kind is Temporal)
            ==> left.before(right),
        left.from_keyframe_id == right.from_keyframe_id && left.to_keyframe_id
            == right.to_keyframe_id && left.kind is Proximity && right.kind is Stereo
            ==> left.before(right),
        left != right ==> left.before(right) || right.before(left),
        !(left.before(right) && right.before(left)),
{
}

/// What a proposal does to a graph: the factor with its key carries the proposal's support
/// and confidence and is scored in this generation. A new factor is active; an old one
/// keeps its measurement and its origin, and an inactive one comes back only where the
/// confidence reaches the threshold. Every other factor stays as it is.
pub proof fn proposals_touch_only_their_key(
    before: Seq<SparseKeyframeFactor>,
    proposal: FactorProposal,
    generation: u64,
    config: SparseFactorGraphConfig,
    other: SparseKeyframeFactor,
) -> (k: int)
    requires
        sorted_by_key(before),
    ensures
        ({
            let after = with_proposal(before, proposal, generation, config);
            &&& 0 <= k < after.len()
            &&& after[k].key == proposal.key
            &&& after[k].support_count == proposal.support_count
            &&& after[k].confidence == proposal.confidence
            &&& after[k].last_scored_generation == generation
            &&& after[k].low_confidence_streak == 0
            &&& other.key != proposal.key ==> (before.contains(other) <==> after.contains(other))
            &&& adds(before, proposal) <==> forall|i: int|
                0 <= i < before.len() ==> (#[trigger] before[i]).key != proposal.key
            &&& adds(before, proposal) ==> {
                &&& after.len() == before.len() + 1
                &&& after[k].state == SparseFactorState::Active
                &&& after[k].inactive_reason is None
                &&& after[k].inactive_since_generation is None
                &&& after[k].created_generation == generation
                &&& after[k].update_count == 1
                &&& after[k].measurement.damping == config.geometric_damping
                &&& after[k].measurement.target_correction_px@ == seq![
                    Scalar::zero(),
                    Scalar::zero(),
                ]
            }
            &&& !adds(before, proposal) ==> {
                &&& after.len() == before.len()
                &&& before[k].key == proposal.key
                &&& after[k].measurement == before[k].measurement
                &&& after[k].created_generation == before[k].created_generation
                &&& after[k].update_count == if before[k].update_count == u64::MAX {
                    u64::MAX as int
                } else {
                    before[k].update_count + 1
                }
                &&& after[k].state == SparseFactorState::Active <==> before[k].state
                    == SparseFactorState::Active || config.reactivation_confidence.le(
                    proposal.confidence,
                )
                &&& revives(before, proposal, config) <==> before[k].state
                    != SparseFactorState::Active && after[k].state == SparseFactorState::Active
                &&& after[k].state != SparseFactorState::Active ==> after[k].inactive_reason
                    == before[k].inactive_reason && after[k].inactive_since_generation
                    == before[k].inactive_since_generation
            }
        }),
{
    lemma_slot_bounds(before, proposal.key);
    lemma_slot_separates(before, proposal.key);
    let k = slot(before, proposal.key);
    let after = with_proposal(before, proposal, generation, config);
    if adds(before, proposal) {
        assert forall|i: int| 0 <= i < before.len() implies (#[trigger] before[i]).key
            != proposal.key by {
            if i > k {
                assert(before[k].key.before(before[i].key));
            }
        }
    }
    if other.key != proposal.key {
        if before.contains(other) {
            let i = before.index_of(other);
            if adds(before, proposal) && i >= k {
                assert(after[i + 1] == other);
            } else {
                assert(after[i] == other);
            }
        }
        if after.contains(other) {
            let i = after.index_of(other);
            if adds(before, proposal) && i > k {
                assert(before[i - 1] == other);
            } else if i != k {
                assert(before[i] == other);
            }
        }
    }
    if adds(before, proposal) {
        assert(after[k].measurement.target_correction_px@ =~= seq![Scalar::zero(), Scalar::zero()]);
    }
    k
}

proof fn lemma_slot_separates(factors: Seq<SparseKeyframeFactor>, key: SparseFactorKey)
    requires
        sorted_by_key(factors),
    ensures
        forall|i: int|
            0 <= i < slot(factors, key) ==> (#[trigger] factors[i]).key.before(key),
        forall|i: int|
            slot(factors, key) <= i < factors.len() ==> !(#[trigger] factors[i]).key.before(key),
    decreases factors.len(),
{
    lemma_slot_bounds(factors, key);
    if factors.len() > 0 {
        let rest = factors.drop_last();
        if factors.last().key.before(key) {
            assert forall|i: int| 0 <= i < factors.len() implies (
            #[trigger] factors[i]).key.before(key) by {
                if i < factors.len() - 1 {
                    assert(factors[i].key.before(factors[factors.len() - 1].key));
                }
            }
        } else {
            assert forall|i: int, j: int| 0 <= i < j < rest.len() implies (
            #[trigger] rest[i]).key.before((#[trigger] rest[j]).key) by {
                assert(factors[i].key.before(factors[j].key));
            }
            lemma_slot_separates(rest, key);
            lemma_slot_bounds(rest, key);
            assert forall|i: int| 0 <= i < slot(factors, key) implies (
            #[trigger] factors[i]).key.before(key) by {
                assert(rest[i].key.before(key));
            }
            assert forall|i: int| slot(factors, key) <= i < factors.len() implies !(
            #[trigger] factors[i]).key.before(key) by {
                if i < rest.len() {
                    assert(!rest[i].key.before(key));
                }
            }
        }
    }
}

/// What rescoring does to a factor: it takes over support and confidence; a confidence
/// below the minimum lengthens the streak and any other ends it; an active factor is
/// retired for low confidence exactly where the streak has lasted long enough and it is not
/// protected; and an inactive one comes back exactly where it was retired for low
/// confidence, touches the window, and its confidence reaches the threshold.
pub proof fn rescoring_follows_confidence(
    factor: SparseKeyframeFactor,
    support: Support,
    window: Seq<u64>,
    generation: u64,
    config: SparseFactorGraphConfig,
)
    ensures
        ({
            let after = rescored(factor, support, window, generation, config);
            let streak = if support.confidence.lt(config.minimum_active_confidence) {
                if factor.low_confidence_streak < usize::MAX {
                    factor.low_confidence_streak + 1
                } else {
                    usize::MAX as int
                }
            } else {
                0
            };
            let was_active = factor.state == SparseFactorState::Active;
            let is_active = after.state == SparseFactorState::Active;
            &&& after.key == factor.key
            &&& after.support_count == support.count
            &&& after.confidence == support.confidence
            &&& after.last_scored_generation == generation
            &&& after.measurement == factor.measurement
            &&& after.created_generation == factor.created_generation
            &&& after.update_count == factor.update_count
            &&& was_active ==> (!is_active <==> streak >= config.low_confidence_patience && (
            factor.key.kind is Temporal ==> !config.protect_temporal_from_confidence_pruning))
            &&& !was_active ==> (is_active <==> factor.inactive_reason == Some(
                SparseFactorInactiveReason::LowConfidence,
            ) && config.reactivation_confidence.le(support.confidence) && (window.contains(
                factor.key.from_keyframe_id,
            ) || window.contains(factor.key.to_keyframe_id)))
            &&& was_active == is_active ==> after.low_confidence_streak == streak
                && after.inactive_reason == factor.inactive_reason
                && after.inactive_since_generation == factor.inactive_since_generation
            &&& was_active && !is_active ==> after.low_confidence_streak == streak
                && after.inactive_reason == Some(SparseFactorInactiveReason::LowConfidence)
                && after.inactive_since_generation == Some(generation)
            &&& !was_active && is_active ==> after.low_confidence_streak == 0
                && after.inactive_reason is None && after.inactive_since_generation is None
        }),
{
}

/// What ageing does to a factor: an active one neither of whose keyframes is in the window
/// is retired in this generation, for its age; any other stays as it is.
pub proof fn ageing_retires_what_left_the_window(
    factor: SparseKeyframeFactor,
    window: Seq<u64>,
    generation: u64,
)
    ensures
        ({
            let after = aged(factor, window, generation);
            let leaves = factor.state == SparseFactorState::Active && forall|k: int|
                0 <= k < window.len() ==> (#[trigger] window[k]) != factor.key.from_keyframe_id
                    && window[k] != factor.key.to_keyframe_id;
            &&& !leaves ==> after == factor
            &&& leaves ==> after == (SparseKeyframeFactor {
                state: SparseFactorState::Inactive,
                inactive_reason: Some(SparseFactorInactiveReason::WindowAge),
                inactive_since_generation: Some(generation),
                ..factor
            })
        }),
{
    if is_outside(factor, window) {
        assert forall|k: int| 0 <= k < window.len() implies (#[trigger] window[k])
            != factor.key.from_keyframe_id && window[k] != factor.key.to_keyframe_id by {
            assert(window.contains(window[k]));
        }
    } else if factor.active() {
        if window.contains(factor.key.from_keyframe_id) {
            let k = window.index_of(factor.key.from_keyframe_id);
            assert(window[k] == factor.key.from_keyframe_id);
        } else {
            let k = window.index_of(factor.key.to_keyframe_id);
            assert(window[k] == factor.key.to_keyframe_id);
        }
    }
}

/// What the budget retires: of two active factors of which one is retired and the other
/// stays, a proximity factor goes before the others; among factors of one sort the less
/// confident goes, and with the same confidence the older one. As many stay as are allowed.
pub proof fn the_budget_keeps_the_confident(
    before: Seq<SparseKeyframeFactor>,
    after: Seq<SparseKeyframeFactor>,
    generation: u64,
    maximum: int,
    i: int,
    j: int,
)
    requires
        is_budget_cut(before, after, generation, maximum),
        0 <= i < before.len(),
        0 <= j < before.len(),
        before[i].state == SparseFactorState::Active,
        before[j].state == SparseFactorState::Active,
        after[i].state != SparseFactorState::Active,
        after[j].state == SparseFactorState::Active,
    ensures
        before[j].key.kind is Proximity ==> before[i].key.kind is Proximity,
        (before[i].key.kind is Proximity <==> before[j].key.kind is Proximity) ==> {
            &&& before[i].confidence.total_rank() <= before[j].confidence.total_rank()
            &&& !before[j].confidence.lt(before[i].confidence)
            &&& before[i].confidence == before[j].confidence ==> before[i].created_generation
                <= before[j].created_generation
            &&& before[i].confidence == before[j].confidence && before[i].created_generation
                == before[j].created_generation ==> before[i].key.before(before[j].key)
        },
        after[i] == (SparseKeyframeFactor {
            state: SparseFactorState::Inactive,
            inactive_reason: Some(SparseFactorInactiveReason::ActiveBudget),
            inactive_since_generation: Some(generation),
            ..before[i]
        }),
        after[j] == before[j],
{
    let a = after[i];
    let b = after[j];
    crate::scalar::total_order_laws(before[i].confidence, before[j].confidence);
    crate::scalar::total_order_laws(before[j].confidence, before[i].confidence);
}

/// Nothing is retired while the active factors fit the budget.
pub proof fn the_budget_retires_no_more_than_it_must(
    before: Seq<SparseKeyframeFactor>,
    after: Seq<SparseKeyframeFactor>,
    generation: u64,
    maximum: int,
)
    requires
        is_budget_cut(before, after, generation, maximum),
        maximum >= 0,
    ensures
        ({
            let was = count_where(
                before.len(),
                |k: int| before[k].state == SparseFactorState::Active,
            );
            let is = count_where(after.len(), |k: int| after[k].state == SparseFactorState::Active);
            is == if was <= maximum {
                was as int
            } else {
                maximum
            }
        }),
{
    lemma_filter_count(before, is_active());
    lemma_filter_count(after, is_active());
    lemma_count_same(
        before.len(),
        |k: int| is_active()(before[k]),
        |k: int| before[k].state == SparseFactorState::Active,
    );
    lemma_count_same(
        after.len(),
        |k: int| is_active()(after[k]),
        |k: int| after[k].state == SparseFactorState::Active,
    );
}

/// Pruning forgets nothing but what has been inactive for longer than the maximum age.
pub proof fn pruning_forgets_only_the_stale(
    factors: Seq<SparseKeyframeFactor>,
    generation: u64,
    maximum_age: u64,
    factor: SparseKeyframeFactor,
)
    requires
        factor.coherent(),
    ensures
        factors.filter(is_kept(generation, maximum_age)).contains(factor) <==> factors.contains(
            factor,
        ) && (factor.inactive_since_generation matches Some(since) ==> generation - since
            <= maximum_age),
{
    crate::sequences::lemma_filter_holds(factors, is_kept(generation, maximum_age), factor);
}

/// The new keyframe comes last unless it was there; keyframes that left the map leave the
/// order; and the others keep theirs.
pub proof fn the_order_follows_the_map(order: Seq<u64>, new_id: u64, map: VisualMapSnapshot) -> (at:
    Seq<int>)
    ensures
        ({
            let longer = if order.contains(new_id) {
                order
            } else {
                order.push(new_id)
            };
            let after = next_order(order, new_id, map);
            &&& lists_kept(
                at,
                longer.len(),
                |i: int|
                    exists|k: int|
                        0 <= k < map.keyframes.len() && (#[trigger] map.keyframes[k]).id
                            == longer[i],
            )
            &&& after.len() == at.len()
            &&& forall|k: int| 0 <= k < at.len() ==> after[k] == longer[#[trigger] at[k]]
        }),
{
    let longer = if order.contains(new_id) {
        order
    } else {
        order.push(new_id)
    };
    let p = is_mapped(map);
    let kept = |i: int|
        exists|k: int| 0 <= k < map.keyframes.len() && (#[trigger] map.keyframes[k]).id == longer[i];
    let at = lemma_filter_positions(longer, p);
    assert forall|i: int| 0 <= i < longer.len() implies #[trigger] kept(i) == p(longer[i]) by {
        if kept(i) {
            let k = choose|k: int|
                0 <= k < map.keyframes.len() && (#[trigger] map.keyframes[k]).id == longer[i];
            assert(map.is_at(k, longer[i]));
        }
        if p(longer[i]) {
            let k = choose|k: int| map.is_at(k, longer[i]);
            assert(map.keyframes[k].id == longer[i]);
        }
    }
    at
}

/// The candidates for a broader recovery are inactive factors of the keyframe, the more
/// confident first and with the same confidence the better supported; as many as there are,
/// or as are asked for; and none that is left out is more confident than one that is named.
pub proof fn recovery_prefers_the_confident(
    factors: Seq<SparseKeyframeFactor>,
    keyframe_id: u64,
    maximum: int,
) -> (at: Seq<int>)
    requires
        factors.len() <= usize::MAX,
        maximum >= 0,
    ensures
        at.len() == recovery_candidates(factors, keyframe_id, maximum).len(),
        ({
            let available = count_where(
                factors.len(),
                |i: int|
                    factors[i].state != SparseFactorState::Active && (
                    factors[i].key.from_keyframe_id == keyframe_id || factors[i].key.to_keyframe_id
                        == keyframe_id),
            );
            at.len() == if available <= maximum {
                available as int
            } else {
                maximum
            }
        }),
        forall|k: int|
            0 <= k < at.len() ==> 0 <= #[trigger] at[k] < factors.len() && recovery_candidates(factors, keyframe_id, maximum)[k]
                == factors[at[k]] && factors[at[k]].state != SparseFactorState::Active && (
            factors[at[k]].key.from_keyframe_id == keyframe_id || factors[at[k]].key.to_keyframe_id
                == keyframe_id),
        forall|k: int, l: int|
            #![trigger at[k], at[l]]
            0 <= k < l < at.len() ==> {
                &&& at[k] != at[l]
                &&& factors[at[l]].confidence.total_rank() <= factors[at[k]].confidence.total_rank()
                &&& factors[at[l]].confidence == factors[at[k]].confidence
                    ==> factors[at[l]].support_count <= factors[at[k]].support_count
            },
        forall|i: int, k: int|
            #![trigger factors[i], at[k]]
            0 <= i < factors.len() && factors[i].state != SparseFactorState::Active && (
            factors[i].key.from_keyframe_id == keyframe_id || factors[i].key.to_keyframe_id
                == keyframe_id) && !at.contains(i) && 0 <= k < at.len() ==> {
                &&& factors[i].confidence.total_rank() <= factors[at[k]].confidence.total_rank()
                &&& factors[i].confidence == factors[at[k]].confidence ==> factors[i].support_count
                    <= factors[at[k]].support_count
            },
{
    let p = is_recovery_candidate(keyframe_id);
    let found = factors.filter(p);
    let from = lemma_filter_positions(factors, p);
    lemma_filter_count(factors, p);
    lemma_count_same(
        factors.len(),
        |k: int| p(factors[k]),
        |i: int|
            factors[i].state != SparseFactorState::Active && (factors[i].key.from_keyframe_id
                == keyframe_id || factors[i].key.to_keyframe_id == keyframe_id),
    );
    factors.lemma_filter_len(p);
    let keys = found.map_values(|f: SparseKeyframeFactor| recovery_key(f));
    crate::order::stable_order_exists(keys);
    let order = stable_order_of(keys);
    let named = recovery_candidates(factors, keyframe_id, maximum);
    let at = Seq::new(named.len(), |k: int| from[order[k] as int]);
    assert forall|k: int| 0 <= k < at.len() implies 0 <= #[trigger] at[k] < factors.len() && named[k]
        == factors[at[k]] && named[k].state != SparseFactorState::Active && (
    named[k].key.from_keyframe_id == keyframe_id || named[k].key.to_keyframe_id
        == keyframe_id) by {
        assert(named[k] == found[order[k] as int]);
        assert(p(factors[from[order[k] as int]]));
    }
    assert forall|k: int, l: int| #![trigger at[k], at[l]] 0 <= k < l < at.len() implies ({
        &&& at[k] != at[l]
        &&& named[l].confidence.total_rank() <= named[k].confidence.total_rank()
        &&& named[l].confidence == named[k].confidence ==> named[l].support_count
            <= named[k].support_count
    }) by {
        assert(precedes(keys, order[k], order[l]));
        if order[k] < order[l] {
            assert(from[order[k] as int] < from[order[l] as int]);
        } else {
            assert(from[order[l] as int] < from[order[k] as int]);
        }
    }
    assert forall|i: int, k: int|
        #![trigger factors[i], at[k]]
        0 <= i < factors.len() && factors[i].state != SparseFactorState::Active && (
        factors[i].key.from_keyframe_id == keyframe_id || factors[i].key.to_keyframe_id
            == keyframe_id) && !at.contains(i) && 0 <= k < at.len() implies ({
        &&& factors[i].confidence.total_rank() <= named[k].confidence.total_rank()
        &&& factors[i].confidence == named[k].confidence ==> factors[i].support_count
            <= named[k].support_count
    }) by {
        assert(p(factors[i]));
        assert(from.contains(i));
        let x = from.index_of(i) as usize;
        stable_order_is_complete(keys, order, x);
        let j = order.index_of(x);
        if j < at.len() {
            assert(at[j] == i);
        }
        assert(precedes(keys, order[k], order[j]));
    }
    at
}

/// Two keyframes are linked by the active factors between them that are not stereo
/// factors, whichever way they point.
pub proof fn links_are_active_and_symmetric(
    factor: SparseKeyframeFactor,
    keyframe_id: u64,
    other_id: u64,
)
    ensures
        links(factor, keyframe_id, other_id) <==> {
            &&& factor.state == SparseFactorState::Active
            &&& factor.key.kind is Temporal || factor.key.kind is Proximity
            &&& keyframe_id != other_id
            &&& (factor.key.from_keyframe_id == keyframe_id && factor.key.to_keyframe_id
                == other_id) || (factor.key.from_keyframe_id == other_id
                && factor.key.to_keyframe_id == keyframe_id)
        },
        links(factor, keyframe_id, other_id) == links(factor, other_id, keyframe_id),
{
}

/// What a graph accepts as a configuration and as a measurement.
pub proof fn validity_is_about_ranges(
    config: SparseFactorGraphConfig,
    measurement: SparseFactorMeasurement,
)
    ensures
        config.valid() ==> config.temporal_radius >= 1 && config.active_window_keyframes >= 2
            && config.proximity_radius_meters.is_finite() && !config.proximity_radius_meters.le(
            Scalar::zero(),
        ) && config.proximity_min_shared_landmarks >= 1
            && config.max_proximity_neighbors_per_keyframe >= 1 && config.support_saturation_count
            >= 1 && config.low_confidence_patience >= 1 && config.max_active_factors >= 1
            && config.max_inactive_age_generations >= 1 && config.geometric_damping.is_finite()
            && !config.geometric_damping.lt(Scalar::zero()),
        config.valid() ==> Scalar::zero().le(config.minimum_active_confidence)
            && config.minimum_active_confidence.le(config.reactivation_confidence)
            && config.reactivation_confidence.le(Scalar::one()),
        measurement.valid() <==> {
            &&& forall|k: int|
                0 <= k < 2 ==> (#[trigger] measurement.target_correction_px[k]).is_finite()
            &&& forall|k: int|
                0 <= k < 2 ==> (#[trigger] measurement.information[k]).is_finite()
                    && !measurement.information[k].lt(Scalar::zero())
            &&& measurement.damping.is_finite()
            &&& !measurement.damping.lt(Scalar::zero())
        },
{
    if measurement.valid() {
        assert forall|k: int| 0 <= k < 2 implies (
        #[trigger] measurement.target_correction_px[k]).is_finite() by {
            assert(k == 0 || k == 1);
        }
        assert forall|k: int| 0 <= k < 2 implies (
        #[trigger] measurement.information[k]).is_finite() && !measurement.information[k].lt(
            Scalar::zero(),
        ) by {
            assert(k == 0 || k == 1);
        }
    }
}

/// The active window is the end of the order: as many keyframes as configured, or all where
/// there are fewer.
pub proof fn the_window_is_the_end_of_the_order(graph: GraphModel, k: int)
    requires
        0 <= k < graph.window().len(),
    ensures
        graph.window().len() == if graph.keyframe_order.len()
            <= graph.config.active_window_keyframes {
            graph.keyframe_order.len() as int
        } else {
            graph.config.active_window_keyframes as int
        },
        graph.window()[k] == graph.keyframe_order[graph.keyframe_order.len() - graph.window().len()
            + k],
{
}

/// What the proposals of an update do to the number of factors: it grows by those that are
/// added, and the number of active ones by those that are added or come back.
pub proof fn proposals_are_counted(
    before: Seq<SparseKeyframeFactor>,
    proposals: Seq<FactorProposal>,
    generation: u64,
    config: SparseFactorGraphConfig,
)
    ensures
        ({
            let after = with_proposals(before, proposals, generation, config);
            let added = added_by(before, proposals, generation, config);
            let revived = revived_by(before, proposals, generation, config);
            &&& after.len() == before.len() + added
            &&& count_where(after.len(), |k: int| after[k].state == SparseFactorState::Active)
                == count_where(before.len(), |k: int| before[k].state == SparseFactorState::Active)
                + added + revived
        }),
    decreases proposals.len(),
{
    let after = with_proposals(before, proposals, generation, config);
    lemma_active_count(before);
    lemma_active_count(after);
    if proposals.len() > 0 {
        let rest = proposals.drop_last();
        let proposal = proposals.last();
        proposals_are_counted(before, rest, generation, config);
        let middle = with_proposals(before, rest, generation, config);
        lemma_active_count(middle);
        lemma_slot_bounds(middle, proposal.key);
        let k = slot(middle, proposal.key);
        if adds(middle, proposal) {
            lemma_filter_insert(middle, k, fresh(proposal, generation, config), is_active());
        } else {
            lemma_filter_update(
                middle,
                k,
                refreshed(middle[k], proposal, generation, config),
                is_active(),
            );
        }
    }
}

proof fn lemma_active_count(factors: Seq<SparseKeyframeFactor>)
    ensures
        factors.filter(is_active()).len() == count_where(
            factors.len(),
            |k: int| factors[k].state == SparseFactorState::Active,
        ),
{
    lemma_filter_count(factors, is_active());
    lemma_count_same(
        factors.len(),
        |k: int| is_active()(factors[k]),
        |k: int| factors[k].state == SparseFactorState::Active,
    );
}

/// What an update reports: the factors that rescoring retired and brought back, those that
/// ageing retired, those that the budget retired, and those that were forgotten. Every stage
/// keeps the keys of the factors and their order.
pub proof fn updates_report_what_they_change(
    before: GraphModel,
    after: GraphModel,
    cut: Seq<SparseKeyframeFactor>,
    stats: SparseFactorGraphUpdateStats,
    new_id: u64,
    evidence: Evidence,
) -> (stages: (Seq<SparseKeyframeFactor>, Seq<SparseKeyframeFactor>, Seq<SparseKeyframeFactor>))
    requires
        is_update_via(before, after, cut, stats, new_id, evidence),
    ensures
        ({
            let (proposed, scored, aged) = stages;
            let order = next_order(before.keyframe_order, new_id, *evidence.map);
            let proposals = before.config.proposals(order, new_id, evidence);
            &&& proposed == with_proposals(
                before.factors,
                proposals,
                after.generation,
                before.config,
            )
            &&& scored.len() == proposed.len()
            &&& aged.len() == proposed.len()
            &&& cut.len() == proposed.len()
            &&& forall|k: int|
                #![trigger proposed[k]]
                0 <= k < proposed.len() ==> scored[k].key == proposed[k].key && aged[k].key
                    == proposed[k].key && cut[k].key == proposed[k].key
            &&& stats.added == proposed.len() - before.factors.len()
            &&& stats.inactivated_low_confidence == count_where(
                proposed.len(),
                |k: int|
                    proposed[k].state == SparseFactorState::Active && scored[k].state
                        != SparseFactorState::Active,
            )
            &&& stats.reactivated == revived_by(
                before.factors,
                proposals,
                after.generation,
                before.config,
            ) + count_where(
                proposed.len(),
                |k: int|
                    proposed[k].state != SparseFactorState::Active && scored[k].state
                        == SparseFactorState::Active,
            )
            &&& stats.inactivated_window_age == count_where(
                scored.len(),
                |k: int|
                    scored[k].state == SparseFactorState::Active && aged[k].state
                        != SparseFactorState::Active,
            )
            &&& stats.inactivated_budget == count_where(
                aged.len(),
                |k: int| aged[k].state == SparseFactorState::Active,
            ) - count_where(cut.len(), |k: int| cut[k].state == SparseFactorState::Active)
            &&& stats.pruned == cut.len() - after.factors.len()
            &&& stats.keyframe_id == new_id
            &&& stats.generation == after.generation
            &&& after.generation == if before.generation == u64::MAX {
                u64::MAX as int
            } else {
                before.generation + 1
            }
            &&& after.keyframe_order == order
            &&& after.config == before.config
        }),
{
    let config = before.config;
    let generation = next_count(before.generation);
    let order = next_order(before.keyframe_order, new_id, *evidence.map);
    let window = last_n(order, config.active_window_keyframes as int);
    let proposals = config.proposals(order, new_id, evidence);
    let proposed = with_proposals(before.factors, proposals, generation, config);
    let scored = rescored_all(proposed, window, generation, config, evidence);
    let current = aged_all(scored, window, generation);
    proposals_are_counted(before.factors, proposals, generation, config);
    let lost = is_given_up(config, evidence);
    let won = is_recovered(window, config, evidence);
    let left = is_outside_of(window);
    lemma_filter_count(proposed, lost);
    lemma_filter_count(proposed, won);
    lemma_filter_count(scored, left);
    lemma_count_same(
        proposed.len(),
        |k: int| lost(proposed[k]),
        |k: int|
            proposed[k].state == SparseFactorState::Active && scored[k].state
                != SparseFactorState::Active,
    );
    lemma_count_same(
        proposed.len(),
        |k: int| won(proposed[k]),
        |k: int|
            proposed[k].state != SparseFactorState::Active && scored[k].state
                == SparseFactorState::Active,
    );
    lemma_count_same(
        scored.len(),
        |k: int| left(scored[k]),
        |k: int|
            scored[k].state == SparseFactorState::Active && current[k].state
                != SparseFactorState::Active,
    );
    lemma_active_count(current);
    lemma_active_count(cut);
    assert forall|k: int| #![trigger proposed[k]] 0 <= k < proposed.len() implies scored[k].key
        == proposed[k].key && current[k].key == proposed[k].key && cut[k].key
        == proposed[k].key by {
        let kept = cut[k];
    }
    (proposed, scored, current)
}

proof fn lemma_proposed_keys(
    before: Seq<SparseKeyframeFactor>,
    proposals: Seq<FactorProposal>,
    generation: u64,
    config: SparseFactorGraphConfig,
    k: int,
) -> (p: int)
    requires
        0 <= k < with_proposals(before, proposals, generation, config).len(),
        forall|i: int|
            0 <= i < before.len() ==> (#[trigger] before[i]).key != with_proposals(
                before,
                proposals,
                generation,
                config,
            )[k].key,
    ensures
        0 <= p < proposals.len(),
        proposals[p].key == with_proposals(before, proposals, generation, config)[k].key,
    decreases proposals.len(),
{
    let after = with_proposals(before, proposals, generation, config);
    if proposals.len() == 0 {
        assert(before[k].key != after[k].key);
        0
    } else {
        let rest = proposals.drop_last();
        let proposal = proposals.last();
        let middle = with_proposals(before, rest, generation, config);
        lemma_slot_bounds(middle, proposal.key);
        let s = slot(middle, proposal.key);
        if k == s {
            if !adds(middle, proposal) {
                assert(middle[s].key == proposal.key);
            }
            proposals.len() - 1
        } else {
            let m = if adds(middle, proposal) && k > s {
                k - 1
            } else {
                k
            };
            assert(after[k] == middle[m]);
            let p = lemma_proposed_keys(before, rest, generation, config, m);
            assert(rest[p] == proposals[p]);
            p
        }
    }
}

/// A proximity factor that an update brings into the graph joins the new keyframe with one
/// whose camera centre is not farther away than the radius and that shares at least the
/// required number of landmarks with it.
pub proof fn updates_add_only_near_proximity_factors(
    before: GraphModel,
    after: GraphModel,
    stats: SparseFactorGraphUpdateStats,
    new_id: u64,
    evidence: Evidence,
    k: int,
) -> (at: (u64, int, int, int))
    requires
        before.config.valid(),
        before.keyframe_order.len() < usize::MAX,
        evidence.map.wf(),
        is_update(before, after, stats, new_id, evidence),
        0 <= k < after.factors.len(),
        after.factors[k].key.kind is Proximity,
        forall|i: int|
            0 <= i < before.factors.len() ==> (#[trigger] before.factors[i]).key
                != after.factors[k].key,
    ensures
        ({
            let config = before.config;
            let (other, l, r, d) = at;
            &&& joins_new(after.factors[k].key, new_id, other)
            &&& other != new_id
            &&& is_last_distance(evidence.scores.distances@, other, d)
            &&& !config.proximity_radius_meters.lt(evidence.scores.distances@[d].distance)
            &&& evidence.map.is_at(l, other)
            &&& evidence.map.is_at(r, new_id)
            &&& evidence.map.keyframes[l].has_pose
            &&& evidence.map.keyframes[r].has_pose
            &&& common_landmarks(evidence.map.keyframes[l], evidence.map.keyframes[r])
                >= config.proximity_min_shared_landmarks
        }),
{
    let cut = choose|cut: Seq<SparseKeyframeFactor>| #[trigger]
        is_update_via(before, after, cut, stats, new_id, evidence);
    let (proposed, scored, aged) = updates_report_what_they_change(
        before,
        after,
        cut,
        stats,
        new_id,
        evidence,
    );
    let kept = is_kept(after.generation, before.config.max_inactive_age_generations);
    let from = lemma_filter_positions(cut, kept);
    let m = from[k];
    assert(cut[m] == after.factors[k]);
    assert(proposed[m].key == after.factors[k].key);
    let order = next_order(before.keyframe_order, new_id, *evidence.map);
    let proposals = before.config.proposals(order, new_id, evidence);
    let p = lemma_proposed_keys(
        before.factors,
        proposals,
        after.generation,
        before.config,
        m,
    );
    let longer = if before.keyframe_order.contains(new_id) {
        before.keyframe_order
    } else {
        before.keyframe_order.push(new_id)
    };
    longer.lemma_filter_len(is_mapped(*evidence.map));
    proximity_factors_join_near_keyframes(before.config, order, new_id, evidence, p)
}

/// The support of a factor: a stereo factor has that of its frame, and any other that of its
/// two keyframes. Keyframes that are not in the map support nothing, with no confidence.
pub proof fn missing_keyframes_support_nothing(evidence: Evidence, key: SparseFactorKey)
    requires
        evidence.map.wf(),
    ensures
        !(key.kind is Stereo) && (!evidence.map.has(key.from_keyframe_id) || !evidence.map.has(
            key.to_keyframe_id,
        )) ==> evidence.of_key(key) == (Support { count: 0, confidence: Scalar::zero() }),
        !(key.kind is Stereo) && evidence.map.has(key.from_keyframe_id) && evidence.map.has(
            key.to_keyframe_id,
        ) ==> evidence.of_key(key).confidence == pair_confidence(
            evidence.scores.pairs@,
            key.from_keyframe_id,
            key.to_keyframe_id,
        ) && evidence.of_key(key).count == common_landmarks(
            evidence.map.keyframe(key.from_keyframe_id),
            evidence.map.keyframe(key.to_keyframe_id),
        ),
        key.kind is Stereo ==> evidence.of_key(key).confidence == stereo_confidence(
            evidence.scores.stereo@,
            key.from_keyframe_id,
        ) && evidence.of_key(key).count == count_where(
            evidence.map.stereo_frame_ids@.len(),
            |k: int| evidence.map.stereo_frame_ids@[k] == key.from_keyframe_id,
        ),
{
    let from = key.from_keyframe_id;
    let to = key.to_keyframe_id;
    if evidence.map.has(from) && evidence.map.has(to) {
        let l = choose|k: int| evidence.map.is_at(k, from);
        let r = choose|k: int| evidence.map.is_at(k, to);
        lemma_shared(evidence, from, to, l, r);
    }
    let ids = evidence.map.stereo_frame_ids@;
    lemma_filter_count(ids, is_frame(from));
    lemma_count_same(ids.len(), |k: int| is_frame(from)(ids[k]), |k: int| ids[k] == from);
    ids.lemma_filter_len(is_frame(from));
    assert(evidence.map.stereo_frame_ids.len() == ids.len());
}

} // verus!
