//! Scoring of a visual map for the sparse factor graph.
//!
//! The confidence of a factor rests on how many landmarks two keyframes share and on the
//! confidences of the observations of those landmarks; proximity rests on the distance of
//! camera centres. This module collects what goes into each score; the arithmetic comes
//! from the functions in [`ScoreNumerics`], which the caller supplies.
use crate::geometry::Pose;
use crate::scalar::Scalar;
use crate::sequences::{count_where, lists_kept};
use crate::sparse_factor_graph::{
    is_update, CenterDistance, Evidence, GraphModel, MapKeyframe, MapScores, PairScore,
    SparseFactorGraph, SparseFactorGraphUpdateStats, SparseFactorKind, SparseKeyframeFactor,
    StereoScore, VisualMapSnapshot,
};
use vstd::prelude::*;

verus! {

/// An observation of a landmark, and how much it is trusted; fully where nothing is said.
#[derive(Clone, Copy, Debug, PartialEq, Eq, Structural)]
pub struct ScoredObservation {
    pub landmark_id: u64,
    pub confidence: Option<Scalar>,
}

/// A keyframe, with its pose where it is known.
#[derive(Clone, Debug, PartialEq, Eq)]
pub struct ScoredKeyframe {
    pub id: u64,
    pub pose: Option<Pose>,
    pub observations: Vec<ScoredObservation>,
}

/// A visual map. Each id belongs to one keyframe.
#[derive(Clone, Debug, PartialEq, Eq)]
pub struct ScoredMap {
    pub keyframes: Vec<ScoredKeyframe>,
    /// The frame of each stereo observation.
    pub stereo_frame_ids: Vec<u64>,
}

/// The confidences of two observations of one landmark.
#[derive(Clone, Copy, Debug, PartialEq, Eq, Structural)]
pub struct SharedConfidence {
    pub left: Scalar,
    pub right: Scalar,
}

/// The arithmetic of the scores.
pub struct ScoreNumerics<P, S, D> {
    /// The confidence of a pair of keyframes by what they share, saturated at a count.
    pub pair: P,
    /// The confidence of a number of stereo observations, saturated at a count.
    pub stereo: S,
    /// The distance of two camera centres.
    pub distance: D,
}

impl<P, S, D> ScoreNumerics<P, S, D> where
    P: Fn(&Vec<SharedConfidence>, usize) -> Scalar,
    S: Fn(usize, usize) -> Scalar,
    D: Fn(&Pose, &Pose) -> Scalar,
{
    /// The functions take any argument.
    pub open spec fn callable(self) -> bool {
        &&& forall|shared: Vec<SharedConfidence>, saturation: usize|
            call_requires(self.pair, (&shared, saturation))
        &&& forall|count: usize, saturation: usize|
            call_requires(self.stereo, (count, saturation))
        &&& forall|one: Pose, other: Pose| call_requires(self.distance, (&one, &other))
    }
}

/// The confidence of an observation.
pub open spec fn trust(observation: ScoredObservation) -> Scalar {
    match observation.confidence {
        Some(confidence) => confidence,
        None => Scalar::one(),
    }
}

/// The last observation of a landmark.
pub open spec fn last_seen(observations: Seq<ScoredObservation>, landmark_id: u64) -> Option<
    ScoredObservation,
>
    decreases observations.len(),
{
    if observations.len() == 0 {
        None
    } else if observations.last().landmark_id == landmark_id {
        Some(observations.last())
    } else {
        last_seen(observations.drop_last(), landmark_id)
    }
}

/// The confidences of what two keyframes share, in the order of the right one.
pub open spec fn shared_confidences(
    left: Seq<ScoredObservation>,
    right: Seq<ScoredObservation>,
) -> Seq<SharedConfidence>
    decreases right.len(),
{
    if right.len() == 0 {
        Seq::empty()
    } else {
        let before = shared_confidences(left, right.drop_last());
        match last_seen(left, right.last().landmark_id) {
            Some(seen) => before.push(
                SharedConfidence { left: trust(seen), right: trust(right.last()) },
            ),
            None => before,
        }
    }
}

fn trust_of(observation: ScoredObservation) -> (confidence: Scalar)
    ensures
        confidence == trust(observation),
{
    match observation.confidence {
        Some(confidence) => confidence,
        None => Scalar::one(),
    }
}

fn find_seen(observations: &Vec<ScoredObservation>, landmark_id: u64) -> (found: Option<
    ScoredObservation,
>)
    ensures
        found == last_seen(observations@, landmark_id),
{
    let mut n: usize = observations.len();
    assert(observations@.take(n as int) =~= observations@);
    while n > 0
        invariant
            n <= observations.len(),
            last_seen(observations@, landmark_id) == last_seen(
                observations@.take(n as int),
                landmark_id,
            ),
        decreases n,
    {
        assert(observations@.take(n as int).drop_last() =~= observations@.take(n - 1));
        if observations[n - 1].landmark_id == landmark_id {
            return Some(observations[n - 1]);
        }
        n -= 1;
    }
    None
}

fn collect_shared(left: &Vec<ScoredObservation>, right: &Vec<ScoredObservation>) -> (list: Vec<
    SharedConfidence,
>)
    ensures
        list@ == shared_confidences(left@, right@),
{
    let mut list: Vec<SharedConfidence> = Vec::new();
    let mut i: usize = 0;
    while i < right.len()
        invariant
            i <= right.len(),
            list@ == shared_confidences(left@, right@.take(i as int)),
        decreases right.len() - i,
    {
        proof {
            assert(right@.take(i + 1).drop_last() =~= right@.take(i as int));
        }
        match find_seen(left, right[i].landmark_id) {
            Some(seen) => {
                list.push(SharedConfidence { left: trust_of(seen), right: trust_of(right[i]) });
            },
            None => {},
        }
        i += 1;
    }
    assert(right@.take(right.len() as int) =~= right@);
    list
}

/// The landmarks that observations show.
pub open spec fn landmarks_of(observations: Seq<ScoredObservation>) -> Seq<u64> {
    observations.map_values(|observation: ScoredObservation| observation.landmark_id)
}

/// `short` is what the factor graph reads of a keyframe.
pub open spec fn is_map_keyframe(full: ScoredKeyframe, short: MapKeyframe) -> bool {
    &&& short.id == full.id
    &&& short.has_pose == full.pose is Some
    &&& short.landmark_ids@ == landmarks_of(full.observations@)
}

impl ScoredMap {
    pub open spec fn wf(self) -> bool {
        forall|i: int, j: int|
            0 <= i < j < self.keyframes.len() ==> (#[trigger] self.keyframes[i]).id != (
            #[trigger] self.keyframes[j]).id
    }

    /// Keyframe `k` has this id.
    pub open spec fn is_at(self, k: int, id: u64) -> bool {
        0 <= k < self.keyframes.len() && self.keyframes[k].id == id
    }

    pub open spec fn has(self, id: u64) -> bool {
        exists|k: int| self.is_at(k, id)
    }

    pub open spec fn keyframe(self, id: u64) -> ScoredKeyframe {
        self.keyframes[choose|k: int| self.is_at(k, id)]
    }

    /// The observations of a keyframe; none where it is missing.
    pub open spec fn seen_by(self, id: u64) -> Seq<ScoredObservation> {
        if self.has(id) {
            self.keyframe(id).observations@
        } else {
            Seq::empty()
        }
    }

    /// The pose of a keyframe, if it has one.
    pub open spec fn pose_of(self, id: u64) -> Option<Pose> {
        if self.has(id) {
            self.keyframe(id).pose
        } else {
            None
        }
    }

    /// `short` is what the factor graph reads of the map.
    pub open spec fn is_snapshot(self, short: VisualMapSnapshot) -> bool {
        &&& short.keyframes.len() == self.keyframes.len()
        &&& forall|k: int|
            0 <= k < self.keyframes.len() ==> is_map_keyframe(
                self.keyframes[k],
                #[trigger] short.keyframes[k],
            )
        &&& short.stereo_frame_ids@ == self.stereo_frame_ids@
    }

    fn find(&self, id: u64) -> (found: Option<usize>)
        requires
            self.wf(),
        ensures
            found is Some <==> self.has(id),
            found matches Some(k) ==> self.is_at(k as int, id) && self.keyframe(id)
                == self.keyframes[k as int],
    {
        let mut k: usize = 0;
        while k < self.keyframes.len()
            invariant
                self.wf(),
                k <= self.keyframes.len(),
                forall|j: int| 0 <= j < k ==> !self.is_at(j, id),
            decreases self.keyframes.len() - k,
        {
            if self.keyframes[k].id == id {
                assert(self.is_at(k as int, id));
                return Some(k);
            }
            k += 1;
        }
        None
    }

    fn find_pose(&self, id: u64) -> (pose: Option<Pose>)
        requires
            self.wf(),
        ensures
            pose == self.pose_of(id),
    {
        match self.find(id) {
            Some(k) => self.keyframes[k].pose,
            None => None,
        }
    }

    fn list_shared(&self, left_id: u64, right_id: u64) -> (list: Vec<SharedConfidence>)
        requires
            self.wf(),
        ensures
            list@ == shared_confidences(self.seen_by(left_id), self.seen_by(right_id)),
    {
        match (self.find(left_id), self.find(right_id)) {
            (Some(left), Some(right)) => collect_shared(
                &self.keyframes[left].observations,
                &self.keyframes[right].observations,
            ),
            (_, Some(right)) => collect_shared(
                &Vec::new(),
                &self.keyframes[right].observations,
            ),
            _ => Vec::new(),
        }
    }

    /// What the factor graph reads of the map.
    pub fn snapshot(&self) -> (short: VisualMapSnapshot)
        requires
            self.wf(),
        ensures
            self.is_snapshot(short),
            short.wf(),
    {
        let mut keyframes: Vec<MapKeyframe> = Vec::new();
        let mut k: usize = 0;
        while k < self.keyframes.len()
            invariant
                k <= self.keyframes.len(),
                keyframes.len() == k,
                forall|j: int|
                    0 <= j < k ==> is_map_keyframe(self.keyframes[j], #[trigger] keyframes[j]),
            decreases self.keyframes.len() - k,
        {
            let observations = &self.keyframes[k].observations;
            let mut landmark_ids: Vec<u64> = Vec::new();
            let mut i: usize = 0;
            while i < observations.len()
                invariant
                    i <= observations.len(),
                    landmark_ids@ == landmarks_of(observations@.take(i as int)),
                decreases observations.len() - i,
            {
                landmark_ids.push(observations[i].landmark_id);
                i += 1;
                assert(landmark_ids@ =~= landmarks_of(observations@.take(i as int)));
            }
            assert(observations@.take(observations.len() as int) =~= observations@);
            let keyframe = MapKeyframe {
                id: self.keyframes[k].id,
                has_pose: self.keyframes[k].pose.is_some(),
                landmark_ids,
            };
            assert(is_map_keyframe(self.keyframes[k as int], keyframe));
            keyframes.push(keyframe);
            k += 1;
        }
        let mut stereo_frame_ids: Vec<u64> = Vec::new();
        let mut i: usize = 0;
        while i < self.stereo_frame_ids.len()
            invariant
                i <= self.stereo_frame_ids.len(),
                stereo_frame_ids@ == self.stereo_frame_ids@.take(i as int),
            decreases self.stereo_frame_ids.len() - i,
        {
            stereo_frame_ids.push(self.stereo_frame_ids[i]);
            i += 1;
            assert(stereo_frame_ids@ =~= self.stereo_frame_ids@.take(i as int));
        }
        assert(self.stereo_frame_ids@.take(self.stereo_frame_ids.len() as int)
            =~= self.stereo_frame_ids@);
        let short = VisualMapSnapshot { keyframes, stereo_frame_ids };
        assert forall|i: int, j: int| 0 <= i < j < short.keyframes.len() implies (
        #[trigger] short.keyframes[i]).id != (#[trigger] short.keyframes[j]).id by {
            assert(is_map_keyframe(self.keyframes[i], short.keyframes[i]));
            assert(is_map_keyframe(self.keyframes[j], short.keyframes[j]));
        }
        short
    }
}

/// The pairs of keyframes that an update may score: those of the factors that are not
/// stereo factors, and the new keyframe with each earlier one in both directions.
pub open spec fn factor_pairs(factors: Seq<SparseKeyframeFactor>) -> Seq<(u64, u64)>
    decreases factors.len(),
{
    if factors.len() == 0 {
        Seq::empty()
    } else {
        let before = factor_pairs(factors.drop_last());
        let key = factors.last().key;
        if key.kind is Stereo {
            before
        } else {
            before.push((key.from_keyframe_id, key.to_keyframe_id))
        }
    }
}

pub open spec fn new_pairs(order: Seq<u64>, new_id: u64) -> Seq<(u64, u64)>
    decreases order.len(),
{
    if order.len() == 0 {
        Seq::empty()
    } else {
        new_pairs(order.drop_last(), new_id).push((order.last(), new_id)).push(
            (new_id, order.last()),
        )
    }
}

fn list_pairs(factors: &Vec<SparseKeyframeFactor>, order: &Vec<u64>, new_id: u64) -> (pairs: Vec<
    (u64, u64),
>)
    ensures
        pairs@ == factor_pairs(factors@) + new_pairs(order@, new_id),
{
    let mut pairs: Vec<(u64, u64)> = Vec::new();
    let mut i: usize = 0;
    while i < factors.len()
        invariant
            i <= factors.len(),
            pairs@ == factor_pairs(factors@.take(i as int)),
        decreases factors.len() - i,
    {
        proof {
            assert(factors@.take(i + 1).drop_last() =~= factors@.take(i as int));
        }
        let key = factors[i].key;
        match key.kind {
            SparseFactorKind::Stereo => {},
            _ => {
                pairs.push((key.from_keyframe_id, key.to_keyframe_id));
            },
        }
        i += 1;
    }
    assert(factors@.take(factors.len() as int) =~= factors@);
    let mut k: usize = 0;
    assert(pairs@ =~= factor_pairs(factors@) + new_pairs(order@.take(0), new_id));
    while k < order.len()
        invariant
            k <= order.len(),
            pairs@ == factor_pairs(factors@) + new_pairs(order@.take(k as int), new_id),
        decreases order.len() - k,
    {
        proof {
            assert(order@.take(k + 1).drop_last() =~= order@.take(k as int));
        }
        pairs.push((order[k], new_id));
        pairs.push((new_id, order[k]));
        k += 1;
        assert(pairs@ =~= factor_pairs(factors@) + new_pairs(order@.take(k as int), new_id));
    }
    assert(order@.take(order.len() as int) =~= order@);
    pairs
}

/// `score` is that of a pair of keyframes.
pub open spec fn is_pair_score<P, S, D>(
    map: ScoredMap,
    saturation: usize,
    pair: (u64, u64),
    numerics: ScoreNumerics<P, S, D>,
    score: PairScore,
) -> bool where
    P: Fn(&Vec<SharedConfidence>, usize) -> Scalar,
    S: Fn(usize, usize) -> Scalar,
    D: Fn(&Pose, &Pose) -> Scalar,
{
    &&& score.left_id == pair.0
    &&& score.right_id == pair.1
    &&& exists|shared: Vec<SharedConfidence>|
        shared@ == shared_confidences(map.seen_by(pair.0), map.seen_by(pair.1)) && #[trigger]
            call_ensures(numerics.pair, (&shared, saturation), score.confidence)
}

/// The number of stereo observations of a frame.
pub open spec fn stereo_count(frames: Seq<u64>, frame_id: u64) -> nat
    decreases frames.len(),
{
    if frames.len() == 0 {
        0
    } else {
        stereo_count(frames.drop_last(), frame_id) + if frames.last() == frame_id {
            1nat
        } else {
            0nat
        }
    }
}

proof fn lemma_stereo_count_bound(frames: Seq<u64>, frame_id: u64)
    ensures
        stereo_count(frames, frame_id) <= frames.len(),
    decreases frames.len(),
{
    if frames.len() > 0 {
        lemma_stereo_count_bound(frames.drop_last(), frame_id);
    }
}

fn count_stereo(frames: &Vec<u64>, frame_id: u64) -> (count: usize)
    ensures
        count == stereo_count(frames@, frame_id),
{
    let mut count: usize = 0;
    let mut i: usize = 0;
    while i < frames.len()
        invariant
            i <= frames.len(),
            count == stereo_count(frames@.take(i as int), frame_id),
        decreases frames.len() - i,
    {
        proof {
            assert(frames@.take(i + 1).drop_last() =~= frames@.take(i as int));
            lemma_stereo_count_bound(frames@.take(i as int), frame_id);
        }
        if frames[i] == frame_id {
            count += 1;
        }
        i += 1;
    }
    assert(frames@.take(frames.len() as int) =~= frames@);
    count
}

/// `score` is that of a frame's stereo observations.
pub open spec fn is_stereo_score<P, S, D>(
    map: ScoredMap,
    saturation: usize,
    frame_id: u64,
    numerics: ScoreNumerics<P, S, D>,
    score: StereoScore,
) -> bool where
    P: Fn(&Vec<SharedConfidence>, usize) -> Scalar,
    S: Fn(usize, usize) -> Scalar,
    D: Fn(&Pose, &Pose) -> Scalar,
{
    &&& score.frame_id == frame_id
    &&& call_ensures(
        numerics.stereo,
        (stereo_count(map.stereo_frame_ids@, frame_id) as usize, saturation),
        score.confidence,
    )
}

/// The keyframes that, like the new one, have a pose.
pub open spec fn posed(map: ScoredMap, order: Seq<u64>, new_id: u64) -> Seq<u64>
    decreases order.len(),
{
    if order.len() == 0 {
        Seq::empty()
    } else {
        let before = posed(map, order.drop_last(), new_id);
        if map.pose_of(new_id) is Some && map.pose_of(order.last()) is Some {
            before.push(order.last())
        } else {
            before
        }
    }
}

/// `entry` is the distance of a keyframe from the new one.
pub open spec fn is_distance<P, S, D>(
    map: ScoredMap,
    id: u64,
    new_id: u64,
    numerics: ScoreNumerics<P, S, D>,
    entry: CenterDistance,
) -> bool where
    P: Fn(&Vec<SharedConfidence>, usize) -> Scalar,
    S: Fn(usize, usize) -> Scalar,
    D: Fn(&Pose, &Pose) -> Scalar,
{
    &&& entry.keyframe_id == id
    &&& map.pose_of(id) is Some
    &&& map.pose_of(new_id) is Some
    &&& call_ensures(
        numerics.distance,
        (&map.pose_of(id)->0, &map.pose_of(new_id)->0),
        entry.distance,
    )
}

/// The frames whose stereo observations an update scores: those of the stereo factors and
/// the new keyframe.
pub open spec fn stereo_frames(factors: Seq<SparseKeyframeFactor>, new_id: u64) -> Seq<u64>
    decreases factors.len(),
{
    if factors.len() == 0 {
        seq![new_id]
    } else {
        let before = stereo_frames(factors.drop_last(), new_id);
        if factors.last().key.kind is Stereo {
            before.push(factors.last().key.from_keyframe_id)
        } else {
            before
        }
    }
}

/// `scores` are the numbers that go with an update of a graph by a new keyframe.
pub open spec fn is_scores<P, S, D>(
    graph: GraphModel,
    map: ScoredMap,
    new_id: u64,
    numerics: ScoreNumerics<P, S, D>,
    scores: MapScores,
) -> bool where
    P: Fn(&Vec<SharedConfidence>, usize) -> Scalar,
    S: Fn(usize, usize) -> Scalar,
    D: Fn(&Pose, &Pose) -> Scalar,
{
    let saturation = graph.config.support_saturation_count;
    let pairs = factor_pairs(graph.factors) + new_pairs(graph.keyframe_order, new_id);
    let frames = stereo_frames(graph.factors, new_id);
    let near = posed(map, graph.keyframe_order, new_id);
    &&& scores.pairs.len() == pairs.len()
    &&& forall|k: int|
        0 <= k < pairs.len() ==> is_pair_score(
            map,
            saturation,
            pairs[k],
            numerics,
            #[trigger] scores.pairs[k],
        )
    &&& scores.stereo.len() == frames.len()
    &&& forall|k: int|
        0 <= k < frames.len() ==> is_stereo_score(
            map,
            saturation,
            frames[k],
            numerics,
            #[trigger] scores.stereo[k],
        )
    &&& scores.distances.len() == near.len()
    &&& forall|k: int|
        0 <= k < near.len() ==> is_distance(
            map,
            near[k],
            new_id,
            numerics,
            #[trigger] scores.distances[k],
        )
}

fn score_pairs<P, S, D>(
    map: &ScoredMap,
    saturation: usize,
    pairs: &Vec<(u64, u64)>,
    numerics: &ScoreNumerics<P, S, D>,
) -> (scores: Vec<PairScore>) where
    P: Fn(&Vec<SharedConfidence>, usize) -> Scalar,
    S: Fn(usize, usize) -> Scalar,
    D: Fn(&Pose, &Pose) -> Scalar,

    requires
        map.wf(),
        numerics.callable(),
    ensures
        scores.len() == pairs.len(),
        forall|k: int|
            0 <= k < pairs.len() ==> is_pair_score(
                *map,
                saturation,
                pairs[k],
                *numerics,
                #[trigger] scores[k],
            ),
{
    let mut scores: Vec<PairScore> = Vec::new();
    let mut i: usize = 0;
    while i < pairs.len()
        invariant
            i <= pairs.len(),
            map.wf(),
            numerics.callable(),
            scores.len() == i,
            forall|k: int|
                0 <= k < i ==> is_pair_score(
                    *map,
                    saturation,
                    pairs[k],
                    *numerics,
                    #[trigger] scores[k],
                ),
        decreases pairs.len() - i,
    {
        let (left_id, right_id) = pairs[i];
        let shared = map.list_shared(left_id, right_id);
        let confidence = (numerics.pair)(&shared, saturation);
        let score = PairScore { left_id, right_id, confidence };
        proof {
            let pair = pairs[i as int];
            assert(shared@ == shared_confidences(map.seen_by(pair.0), map.seen_by(pair.1)));
            assert(call_ensures(numerics.pair, (&shared, saturation), score.confidence));
            assert(is_pair_score(*map, saturation, pair, *numerics, score));
        }
        scores.push(score);
        i += 1;
    }
    scores
}

fn list_stereo_frames(factors: &Vec<SparseKeyframeFactor>, new_id: u64) -> (frames: Vec<u64>)
    ensures
        frames@ == stereo_frames(factors@, new_id),
{
    let mut frames: Vec<u64> = Vec::new();
    frames.push(new_id);
    assert(frames@ =~= stereo_frames(factors@.take(0), new_id));
    let mut i: usize = 0;
    while i < factors.len()
        invariant
            i <= factors.len(),
            frames@ == stereo_frames(factors@.take(i as int), new_id),
        decreases factors.len() - i,
    {
        proof {
            assert(factors@.take(i + 1).drop_last() =~= factors@.take(i as int));
        }
        match factors[i].key.kind {
            SparseFactorKind::Stereo => {
                frames.push(factors[i].key.from_keyframe_id);
            },
            _ => {},
        }
        i += 1;
    }
    assert(factors@.take(factors.len() as int) =~= factors@);
    frames
}

fn score_stereo<P, S, D>(
    map: &ScoredMap,
    saturation: usize,
    frames: &Vec<u64>,
    numerics: &ScoreNumerics<P, S, D>,
) -> (scores: Vec<StereoScore>) where
    P: Fn(&Vec<SharedConfidence>, usize) -> Scalar,
    S: Fn(usize, usize) -> Scalar,
    D: Fn(&Pose, &Pose) -> Scalar,

    requires
        numerics.callable(),
    ensures
        scores.len() == frames.len(),
        forall|k: int|
            0 <= k < frames.len() ==> is_stereo_score(
                *map,
                saturation,
                frames[k],
                *numerics,
                #[trigger] scores[k],
            ),
{
    let mut scores: Vec<StereoScore> = Vec::new();
    let mut i: usize = 0;
    while i < frames.len()
        invariant
            i <= frames.len(),
            numerics.callable(),
            scores.len() == i,
            forall|k: int|
                0 <= k < i ==> is_stereo_score(
                    *map,
                    saturation,
                    frames[k],
                    *numerics,
                    #[trigger] scores[k],
                ),
        decreases frames.len() - i,
    {
        let count = count_stereo(&map.stereo_frame_ids, frames[i]);
        let confidence = (numerics.stereo)(count, saturation);
        scores.push(StereoScore { frame_id: frames[i], confidence });
        i += 1;
    }
    scores
}

fn measure_distances<P, S, D>(
    map: &ScoredMap,
    order: &Vec<u64>,
    new_id: u64,
    numerics: &ScoreNumerics<P, S, D>,
) -> (distances: Vec<CenterDistance>) where
    P: Fn(&Vec<SharedConfidence>, usize) -> Scalar,
    S: Fn(usize, usize) -> Scalar,
    D: Fn(&Pose, &Pose) -> Scalar,

    requires
        map.wf(),
        numerics.callable(),
    ensures
        distances.len() == posed(*map, order@, new_id).len(),
        forall|k: int|
            0 <= k < distances.len() ==> is_distance(
                *map,
                posed(*map, order@, new_id)[k],
                new_id,
                *numerics,
                #[trigger] distances[k],
            ),
{
    let mut distances: Vec<CenterDistance> = Vec::new();
    let new_pose = map.find_pose(new_id);
    let mut i: usize = 0;
    while i < order.len()
        invariant
            i <= order.len(),
            map.wf(),
            numerics.callable(),
            new_pose == map.pose_of(new_id),
            distances.len() == posed(*map, order@.take(i as int), new_id).len(),
            forall|k: int|
                0 <= k < distances.len() ==> is_distance(
                    *map,
                    posed(*map, order@.take(i as int), new_id)[k],
                    new_id,
                    *numerics,
                    #[trigger] distances[k],
                ),
        decreases order.len() - i,
    {
        proof {
            assert(order@.take(i + 1).drop_last() =~= order@.take(i as int));
        }
        match (new_pose, map.find_pose(order[i])) {
            (Some(new_pose), Some(pose)) => {
                let distance = (numerics.distance)(&pose, &new_pose);
                distances.push(CenterDistance { keyframe_id: order[i], distance });
            },
            _ => {},
        }
        i += 1;
    }
    assert(order@.take(order.len() as int) =~= order@);
    distances
}

/// Updates a factor graph after a keyframe has been committed to a map: scores what the
/// update may need, and applies it.
pub fn update_from_scored_map<P, S, D>(
    graph: &mut SparseFactorGraph,
    map: &ScoredMap,
    new_keyframe_id: u64,
    numerics: &ScoreNumerics<P, S, D>,
) -> (stats: SparseFactorGraphUpdateStats) where
    P: Fn(&Vec<SharedConfidence>, usize) -> Scalar,
    S: Fn(usize, usize) -> Scalar,
    D: Fn(&Pose, &Pose) -> Scalar,

    requires
        old(graph)@.wf(),
        map.wf(),
        numerics.callable(),
    ensures
        final(graph)@.wf(),
        exists|short: VisualMapSnapshot, scores: MapScores|
            #![trigger map.is_snapshot(short), is_scores(
                old(graph)@,
                *map,
                new_keyframe_id,
                *numerics,
                scores,
            )]
            {
                &&& map.is_snapshot(short)
                &&& is_scores(old(graph)@, *map, new_keyframe_id, *numerics, scores)
                &&& is_update(
                    old(graph)@,
                    final(graph)@,
                    stats,
                    new_keyframe_id,
                    Evidence { map: &short, scores: &scores },
                )
            },
{
    let saturation: usize = graph.config().support_saturation_count;
    let pairs = list_pairs(graph.factors(), graph.keyframe_order(), new_keyframe_id);
    let frames = list_stereo_frames(graph.factors(), new_keyframe_id);
    let scores = MapScores {
        pairs: score_pairs(map, saturation, &pairs, numerics),
        stereo: score_stereo(map, saturation, &frames, numerics),
        distances: measure_distances(map, graph.keyframe_order(), new_keyframe_id, numerics),
    };
    let short = map.snapshot();
    assert(is_scores(graph@, *map, new_keyframe_id, *numerics, scores));
    graph.update_from_map(&short, &scores, new_keyframe_id)
}

/// The observation of a landmark that counts is the last one, and there is one wherever the
/// landmark is observed. An observation without a confidence is fully trusted.
pub proof fn the_last_observation_counts(
    observations: Seq<ScoredObservation>,
    landmark_id: u64,
) -> (k: int)
    ensures
        last_seen(observations, landmark_id) is Some <==> exists|j: int|
            0 <= j < observations.len() && (#[trigger] observations[j]).landmark_id == landmark_id,
        last_seen(observations, landmark_id) matches Some(seen) ==> 0 <= k < observations.len()
            && observations[k] == seen && seen.landmark_id == landmark_id && forall|later: int|
            k < later < observations.len() ==> (#[trigger] observations[later]).landmark_id
                != landmark_id,
    decreases observations.len(),
{
    if observations.len() == 0 {
        0
    } else {
        let rest = observations.drop_last();
        let n = rest.len() as int;
        let k = the_last_observation_counts(rest, landmark_id);
        assert forall|j: int| 0 <= j < n implies #[trigger] observations[j] == rest[j] by {}
        if observations.last().landmark_id == landmark_id {
            assert(observations[n].landmark_id == landmark_id);
            n
        } else {
            if last_seen(rest, landmark_id) is Some {
                assert(observations[k].landmark_id == landmark_id);
            }
            if exists|j: int|
                0 <= j < observations.len() && (#[trigger] observations[j]).landmark_id
                    == landmark_id {
                let j = choose|j: int|
                    0 <= j < observations.len() && (#[trigger] observations[j]).landmark_id
                        == landmark_id;
                assert(rest[j].landmark_id == landmark_id);
            }
            k
        }
    }
}

/// What two keyframes share: the right one's observations of landmarks that the left one
/// observes too, in order, each with both confidences; a confidence that is not given is one.
pub proof fn shared_observations_carry_both_confidences(
    left: Seq<ScoredObservation>,
    right: Seq<ScoredObservation>,
) -> (at: Seq<int>)
    ensures
        lists_kept(
            at,
            right.len(),
            |m: int|
                exists|j: int|
                    0 <= j < left.len() && (#[trigger] left[j]).landmark_id
                        == right[m].landmark_id,
        ),
        shared_confidences(left, right).len() == at.len(),
        forall|k: int|
            0 <= k < at.len() ==> ({
                let found = shared_confidences(left, right)[k];
                let observed = right[#[trigger] at[k]];
                &&& observed.confidence matches Some(confidence) ==> found.right == confidence
                &&& observed.confidence is None ==> found.right == Scalar::one()
                &&& last_seen(left, observed.landmark_id) matches Some(seen)
                &&& seen.confidence matches Some(confidence) ==> found.left == confidence
                &&& seen.confidence is None ==> found.left == Scalar::one()
            }),
    decreases right.len(),
{
    let kept = |m: int|
        exists|j: int|
            0 <= j < left.len() && (#[trigger] left[j]).landmark_id == right[m].landmark_id;
    if right.len() == 0 {
        Seq::empty()
    } else {
        let rest = right.drop_last();
        let n = rest.len() as int;
        let before = shared_observations_carry_both_confidences(left, rest);
        let kept_before = |m: int|
            exists|j: int|
                0 <= j < left.len() && (#[trigger] left[j]).landmark_id == rest[m].landmark_id;
        the_last_observation_counts(left, right[n].landmark_id);
        assert forall|m: int| 0 <= m < n implies #[trigger] kept(m) == kept_before(m) by {
            assert(rest[m] == right[m]);
        }
        assert(lists_kept(before, rest.len(), kept));
        crate::sequences::lemma_lists_one_more(before, rest.len(), kept);
        assert forall|k: int| 0 <= k < before.len() implies rest[#[trigger] before[k]]
            == right[before[k]] by {}
        assert(kept(n) <==> last_seen(left, right[n].landmark_id) is Some);
        if last_seen(left, right[n].landmark_id) is Some {
            let at = before.push(n);
            assert(at.last() == n);
            at
        } else {
            before
        }
    }
}

/// The pairs that are scored: those of the factors that are not stereo factors, in order, and
/// every keyframe of the order with the new one, both ways.
pub proof fn every_pair_is_scored(
    factors: Seq<SparseKeyframeFactor>,
    order: Seq<u64>,
    new_id: u64,
) -> (at: Seq<int>)
    ensures
        lists_kept(at, factors.len(), |k: int| !(factors[k].key.kind is Stereo)),
        factor_pairs(factors).len() == at.len(),
        forall|k: int|
            0 <= k < at.len() ==> factor_pairs(factors)[k] == (
                factors[#[trigger] at[k]].key.from_keyframe_id,
                factors[at[k]].key.to_keyframe_id,
            ),
        new_pairs(order, new_id).len() == 2 * order.len(),
        forall|k: int|
            #![trigger order[k]]
            0 <= k < order.len() ==> new_pairs(order, new_id)[2 * k] == (order[k], new_id)
                && new_pairs(order, new_id)[2 * k + 1] == (new_id, order[k]),
    decreases factors.len(), order.len(),
{
    let kept = |k: int| !(factors[k].key.kind is Stereo);
    if order.len() > 0 {
        let shorter = order.drop_last();
        let at = every_pair_is_scored(factors, shorter, new_id);
        let all = new_pairs(order, new_id);
        let before = new_pairs(shorter, new_id);
        assert forall|k: int| #![trigger order[k]] 0 <= k < order.len() implies all[2 * k] == (
            order[k],
            new_id,
        ) && all[2 * k + 1] == (new_id, order[k]) by {
            if k < shorter.len() {
                assert(shorter[k] == order[k]);
                assert(all[2 * k] == before[2 * k] && all[2 * k + 1] == before[2 * k + 1]);
            }
        }
        at
    } else if factors.len() == 0 {
        Seq::empty()
    } else {
        let rest = factors.drop_last();
        let n = rest.len() as int;
        let before = every_pair_is_scored(rest, order, new_id);
        let kept_before = |k: int| !(rest[k].key.kind is Stereo);
        assert forall|k: int| 0 <= k < n implies #[trigger] kept(k) == kept_before(k) by {}
        assert(lists_kept(before, rest.len(), kept));
        crate::sequences::lemma_lists_one_more(before, rest.len(), kept);
        assert forall|k: int| 0 <= k < before.len() implies rest[#[trigger] before[k]]
            == factors[before[k]] by {}
        if kept(n) {
            let at = before.push(n);
            assert(at.last() == n);
            at
        } else {
            before
        }
    }
}

/// The frames whose stereo support is scored: the new one first, and those of the stereo
/// factors, in order. The support of a frame is the number of its stereo observations.
pub proof fn every_stereo_frame_is_scored(
    factors: Seq<SparseKeyframeFactor>,
    new_id: u64,
    frames: Seq<u64>,
    frame_id: u64,
) -> (at: Seq<int>)
    ensures
        lists_kept(at, factors.len(), |k: int| factors[k].key.kind is Stereo),
        stereo_frames(factors, new_id).len() == at.len() + 1,
        stereo_frames(factors, new_id)[0] == new_id,
        forall|k: int|
            0 <= k < at.len() ==> stereo_frames(factors, new_id)[k + 1] == factors[#[trigger] at[k]].key.from_keyframe_id,
        stereo_count(frames, frame_id) == count_where(
            frames.len(),
            |k: int| frames[k] == frame_id,
        ),
    decreases factors.len() + frames.len(),
{
    let kept = |k: int| factors[k].key.kind is Stereo;
    if frames.len() > 0 {
        let shorter = frames.drop_last();
        let at = every_stereo_frame_is_scored(factors, new_id, shorter, frame_id);
        crate::sequences::lemma_count_same(
            shorter.len(),
            |k: int| shorter[k] == frame_id,
            |k: int| frames[k] == frame_id,
        );
        at
    } else if factors.len() == 0 {
        Seq::empty()
    } else {
        let rest = factors.drop_last();
        let n = rest.len() as int;
        let before = every_stereo_frame_is_scored(rest, new_id, frames, frame_id);
        let kept_before = |k: int| rest[k].key.kind is Stereo;
        assert forall|k: int| 0 <= k < n implies #[trigger] kept(k) == kept_before(k) by {}
        assert(lists_kept(before, rest.len(), kept));
        crate::sequences::lemma_lists_one_more(before, rest.len(), kept);
        assert forall|k: int| 0 <= k < before.len() implies rest[#[trigger] before[k]]
            == factors[before[k]] by {}
        if kept(n) {
            let at = before.push(n);
            assert(at.last() == n);
            at
        } else {
            before
        }
    }
}

/// Distances are measured to the keyframes of the order that have a pose, in order, and to
/// none where the new keyframe has no pose.
pub proof fn distances_need_both_poses(map: ScoredMap, order: Seq<u64>, new_id: u64) -> (at: Seq<
    int,
>)
    ensures
        lists_kept(
            at,
            order.len(),
            |k: int| map.pose_of(new_id) is Some && map.pose_of(order[k]) is Some,
        ),
        posed(map, order, new_id).len() == at.len(),
        forall|k: int| 0 <= k < at.len() ==> posed(map, order, new_id)[k] == order[#[trigger] at[k]],
    decreases order.len(),
{
    let kept = |k: int| map.pose_of(new_id) is Some && map.pose_of(order[k]) is Some;
    if order.len() == 0 {
        Seq::empty()
    } else {
        let rest = order.drop_last();
        let n = rest.len() as int;
        let before = distances_need_both_poses(map, rest, new_id);
        let kept_before = |k: int| map.pose_of(new_id) is Some && map.pose_of(rest[k]) is Some;
        assert forall|k: int| 0 <= k < n implies #[trigger] kept(k) == kept_before(k) by {
            assert(rest[k] == order[k]);
        }
        assert(lists_kept(before, rest.len(), kept));
        crate::sequences::lemma_lists_one_more(before, rest.len(), kept);
        assert forall|k: int| 0 <= k < before.len() implies rest[#[trigger] before[k]]
            == order[before[k]] by {}
        if kept(n) {
            let at = before.push(n);
            assert(at.last() == n);
            at
        } else {
            before
        }
    }
}

/// What a keyframe is looked up by: its id. A keyframe that is there gives its own pose and
/// observations, and one that is not gives none.
pub proof fn keyframes_are_looked_up_by_id(map: ScoredMap, k: int, id: u64)
    requires
        map.wf(),
    ensures
        0 <= k < map.keyframes@.len() && map.keyframes@[k].id == id ==> map.pose_of(id)
            == map.keyframes@[k].pose && map.seen_by(id) == map.keyframes@[k].observations@,
        (forall|j: int| 0 <= j < map.keyframes@.len() ==> (#[trigger] map.keyframes@[j]).id != id)
            ==> map.pose_of(id) is None && map.seen_by(id).len() == 0,
{
    if 0 <= k < map.keyframes@.len() && map.keyframes@[k].id == id {
        assert(map.is_at(k, id));
        let j = choose|j: int| map.is_at(j, id);
        assert(map.is_at(j, id));
        if j < k {
            assert(map.keyframes[j].id != map.keyframes[k].id);
        } else if k < j {
            assert(map.keyframes[k].id != map.keyframes[j].id);
        }
    }
    if forall|j: int| 0 <= j < map.keyframes@.len() ==> (#[trigger] map.keyframes@[j]).id != id {
        assert(!map.has(id)) by {
            if map.has(id) {
                let j = choose|j: int| map.is_at(j, id);
                assert(map.keyframes@[j].id == id);
            }
        }
    }
}

/// What the factor graph reads of a map: its keyframes in order, with their ids, whether they
/// have a pose, and the landmarks they observe; and the frames of its stereo observations.
pub proof fn snapshots_keep_what_is_read(map: ScoredMap, short: VisualMapSnapshot, k: int)
    requires
        map.is_snapshot(short),
        0 <= k < map.keyframes@.len(),
    ensures
        short.keyframes@.len() == map.keyframes@.len(),
        short.stereo_frame_ids@ == map.stereo_frame_ids@,
        short.keyframes@[k].id == map.keyframes@[k].id,
        short.keyframes@[k].has_pose <==> map.keyframes@[k].pose is Some,
        short.keyframes@[k].landmark_ids@.len() == map.keyframes@[k].observations@.len(),
        forall|m: int|
            0 <= m < map.keyframes@[k].observations@.len()
                ==> #[trigger] short.keyframes@[k].landmark_ids@[m]
                == map.keyframes@[k].observations@[m].landmark_id,
{
    assert(is_map_keyframe(map.keyframes[k], short.keyframes[k]));
}

/// What is scored for an update: every pair under its two ids, by what the two keyframes
/// share; every stereo frame under its id, by how many stereo observations it has; and every
/// distance under its keyframe, between that keyframe's pose and the new one's.
pub proof fn scores_are_filed_under_their_ids<P, S, D>(
    graph: GraphModel,
    map: ScoredMap,
    new_id: u64,
    numerics: ScoreNumerics<P, S, D>,
    scores: MapScores,
    p: int,
    s: int,
    d: int,
) where
    P: Fn(&Vec<SharedConfidence>, usize) -> Scalar,
    S: Fn(usize, usize) -> Scalar,
    D: Fn(&Pose, &Pose) -> Scalar,

    requires
        is_scores(graph, map, new_id, numerics, scores),
        0 <= p < scores.pairs@.len(),
        0 <= s < scores.stereo@.len(),
        0 <= d < scores.distances@.len(),
    ensures
        ({
            let saturation = graph.config.support_saturation_count;
            let pairs = factor_pairs(graph.factors) + new_pairs(graph.keyframe_order, new_id);
            let frames = stereo_frames(graph.factors, new_id);
            let near = posed(map, graph.keyframe_order, new_id);
            &&& scores.pairs@.len() == pairs.len()
            &&& scores.stereo@.len() == frames.len()
            &&& scores.distances@.len() == near.len()
            &&& (scores.pairs@[p].left_id, scores.pairs@[p].right_id) == pairs[p]
            &&& exists|shared: Vec<SharedConfidence>|
                shared@ == shared_confidences(
                    map.seen_by(scores.pairs@[p].left_id),
                    map.seen_by(scores.pairs@[p].right_id),
                ) && #[trigger] call_ensures(
                    numerics.pair,
                    (&shared, saturation),
                    scores.pairs@[p].confidence,
                )
            &&& scores.stereo@[s].frame_id == frames[s]
            &&& call_ensures(
                numerics.stereo,
                (stereo_count(map.stereo_frame_ids@, frames[s]) as usize, saturation),
                scores.stereo@[s].confidence,
            )
            &&& scores.distances@[d].keyframe_id == near[d]
            &&& map.pose_of(near[d]) matches Some(pose)
            &&& map.pose_of(new_id) matches Some(new_pose)
            &&& call_ensures(
                numerics.distance,
                (&pose, &new_pose),
                scores.distances@[d].distance,
            )
        }),
{
    let pairs = factor_pairs(graph.factors) + new_pairs(graph.keyframe_order, new_id);
    let frames = stereo_frames(graph.factors, new_id);
    let near = posed(map, graph.keyframe_order, new_id);
    let saturation = graph.config.support_saturation_count;
    assert(is_pair_score(map, saturation, pairs[p], numerics, scores.pairs[p]));
    assert(is_stereo_score(map, saturation, frames[s], numerics, scores.stereo[s]));
    assert(is_distance(map, near[d], new_id, numerics, scores.distances[d]));
}

} // verus!
