//! Auditable overlap evidence between independently reconstructed submaps.
//!
//! Shared observations, identified by source frame and keypoint, vote for one-to-one
//! landmark matches. Verified camera-to-camera rotations remain separate evidence: they
//! are converted into the two local submap gauges and consensus-filtered before a 3D
//! alignment sees them. Rotations and angles are computed by the functions in
//! [`OverlapNumerics`], which the caller supplies.
use crate::geometry::{Point3, Pose, Quaternion};
use crate::scalar::{largest, largest_bounds_all, Scalar};
use crate::sequences::{
    count_where, indices_where, lemma_filter_positions, lemma_filter_take,
    lemma_increasing_is_unique, lemma_indices_where, lemma_take_all, lists_kept, sorted_set,
    sorted_set_of, strictly_increasing,
};
use crate::submap_alignment::SubmapPointMatch;
use crate::text::{decimal, decimal_text};
use std::collections::BTreeMap;
use vstd::prelude::*;

verus! {

/// A verified relative rotation of one ordered image pair.
#[derive(Clone, Copy, Debug, PartialEq, Eq, Structural)]
pub struct PairRotationEvidence {
    pub image_i: u64,
    pub image_j: u64,
    /// Rotation from camera `i` coordinates into camera `j` coordinates.
    pub image_j_from_i: Quaternion,
    pub inlier_count: usize,
}

#[derive(Clone, Copy, Debug, PartialEq, Eq, Structural)]
pub struct SubmapOverlapConfig {
    /// Shared observations required before two local landmarks can correspond.
    pub min_shared_observations_per_landmark: usize,
    /// Minimum agreeing rotation candidates.
    pub min_rotation_consensus_candidates: usize,
    /// Angular radius of the rotation consensus.
    pub max_rotation_disagreement_deg: Scalar,
}

impl Default for SubmapOverlapConfig {
    /// One observation, one candidate, and 5 degrees.
    fn default() -> (config: Self)
        ensures
            config == (SubmapOverlapConfig {
                min_shared_observations_per_landmark: 1,
                min_rotation_consensus_candidates: 1,
                max_rotation_disagreement_deg: Scalar { bits: 0x4014_0000_0000_0000 },
            }),
    {
        SubmapOverlapConfig {
            min_shared_observations_per_landmark: 1,
            min_rotation_consensus_candidates: 1,
            max_rotation_disagreement_deg: Scalar { bits: 0x4014_0000_0000_0000 },
        }
    }
}

/// An observation of a landmark in a frame of the sequence.
#[derive(Clone, Copy, Debug, PartialEq, Eq, Structural)]
pub struct LocalSubmapObservation {
    pub source_frame_id: u64,
    pub keypoint_index: usize,
}

/// A landmark of a submap.
#[derive(Clone, Debug, PartialEq, Eq)]
pub struct LocalSubmapLandmark {
    pub local_landmark_id: u64,
    pub position: Point3,
    pub observations: Vec<LocalSubmapObservation>,
}

/// A registered frame of a submap, with its camera centre.
#[derive(Clone, Copy, Debug, PartialEq, Eq, Structural)]
pub struct LocalSubmapFrame {
    pub source_frame_id: u64,
    pub pose: Pose,
    pub camera_center: Point3,
}

/// What the overlap reads of a submap.
#[derive(Clone, Debug, PartialEq, Eq)]
pub struct LocalSubmap {
    pub frames: Vec<LocalSubmapFrame>,
    pub landmarks: Vec<LocalSubmapLandmark>,
}

#[derive(Clone, Debug, PartialEq, Eq)]
pub struct SubmapOverlapEvidence {
    pub point_matches: Vec<SubmapPointMatch>,
    /// Rotation from the source gauge into the target gauge.
    pub target_from_source_rotation: Quaternion,
    pub rotation_candidate_count: usize,
    pub rotation_consensus_count: usize,
    pub rotation_consensus_inlier_support: usize,
    pub max_rotation_disagreement_deg: Scalar,
}

#[derive(Clone, Copy, Debug, PartialEq, Eq, Structural)]
pub enum SubmapOverlapError {
    NoRotationCandidates,
    InsufficientRotationConsensus { required: usize, found: usize },
}

impl SubmapOverlapError {
    /// A description for people.
    pub fn message(&self) -> (text: String)
        ensures
            text@ == (match *self {
                SubmapOverlapError::NoRotationCandidates =>
                    "no essential pair connects a registered source frame to a registered target frame"@,
                SubmapOverlapError::InsufficientRotationConsensus { required, found } =>
                    "essential rotation consensus has "@ + decimal(found as nat) + " candidates; "@
                    + decimal(required as nat) + " required"@,
            }),
    {
        match self {
            SubmapOverlapError::NoRotationCandidates =>
                "no essential pair connects a registered source frame to a registered target frame".to_owned(),
            SubmapOverlapError::InsufficientRotationConsensus { required, found } =>
                String::from_str("essential rotation consensus has ").concat(
                decimal_text(*found as u128).as_str(),
            ).concat(" candidates; ").concat(decimal_text(*required as u128).as_str()).concat(
                " required",
            ),
        }
    }
}

/// One sighting: a landmark and where it was observed.
#[derive(Clone, Copy, Debug, PartialEq, Eq, Structural)]
pub struct Sighting {
    pub landmark_id: u64,
    pub frame_id: u64,
    pub keypoint: usize,
}

/// The sightings of one landmark.
pub open spec fn landmark_sightings(landmark: LocalSubmapLandmark) -> Seq<Sighting> {
    landmark.observations@.map_values(
        |observation: LocalSubmapObservation|
            Sighting {
                landmark_id: landmark.local_landmark_id,
                frame_id: observation.source_frame_id,
                keypoint: observation.keypoint_index,
            },
    )
}

/// All sightings of a submap, landmark by landmark.
pub open spec fn sightings(landmarks: Seq<LocalSubmapLandmark>) -> Seq<Sighting>
    decreases landmarks.len(),
{
    if landmarks.len() == 0 {
        Seq::empty()
    } else {
        sightings(landmarks.drop_last()) + landmark_sightings(landmarks.last())
    }
}

/// Selects the sightings at one keypoint.
pub open spec fn is_at(frame_id: u64, keypoint: usize) -> spec_fn(Sighting) -> bool {
    |sighting: Sighting| sighting.frame_id == frame_id && sighting.keypoint == keypoint
}

/// The landmark that was seen at a keypoint, where exactly one sighting is there.
pub open spec fn owner(all: Seq<Sighting>, frame_id: u64, keypoint: usize) -> Option<u64> {
    let found = all.filter(is_at(frame_id, keypoint));
    if found.len() == 1 {
        Some(found[0].landmark_id)
    } else {
        None
    }
}

/// The sightings at keypoints where no other sighting of the submap is.
pub open spec fn clear_sightings(landmarks: Seq<LocalSubmapLandmark>) -> Seq<Sighting> {
    sightings(landmarks).filter(is_clear(sightings(landmarks)))
}

/// Selects the sightings that are alone at their keypoint.
pub open spec fn is_clear(all: Seq<Sighting>) -> spec_fn(Sighting) -> bool {
    |sighting: Sighting| owner(all, sighting.frame_id, sighting.keypoint) is Some
}

/// Selects the sightings of a source landmark that vote for a target landmark.
pub open spec fn votes_for(target: Seq<Sighting>, source_id: u64, target_id: u64) -> spec_fn(
    Sighting,
) -> bool {
    |sighting: Sighting|
        sighting.landmark_id == source_id && owner(target, sighting.frame_id, sighting.keypoint)
            == Some(target_id)
}

/// Number of these source sightings that a source and a target landmark share. One that is
/// ambiguous in the target does not count.
pub open spec fn votes(
    source: Seq<Sighting>,
    target: Seq<Sighting>,
    source_id: u64,
    target_id: u64,
) -> nat {
    source.filter(votes_for(target, source_id, target_id)).len()
}

/// A candidate with more votes is preferred; on equal votes, the lower id.
pub open spec fn preferred(count: nat, id: u64, other_count: nat, other_id: u64) -> bool {
    count > other_count || (count == other_count && id < other_id)
}

/// The two landmarks share enough observations, and each is the other's preferred
/// candidate among those that do.
pub open spec fn is_mutual_best(
    source: Seq<Sighting>,
    target: Seq<Sighting>,
    threshold: int,
    source_id: u64,
    target_id: u64,
) -> bool {
    let count = votes(source, target, source_id, target_id);
    &&& count >= threshold
    &&& forall|other: u64|
        other != target_id && (#[trigger] votes(source, target, source_id, other)) >= threshold
            ==> preferred(count, target_id, votes(source, target, source_id, other), other)
    &&& forall|other: u64|
        other != source_id && (#[trigger] votes(source, target, other, target_id)) >= threshold
            ==> preferred(count, source_id, votes(source, target, other, target_id), other)
}

/// The position of the last landmark with an id.
pub open spec fn position_of(landmarks: Seq<LocalSubmapLandmark>, id: u64) -> Option<Point3>
    decreases landmarks.len(),
{
    if landmarks.len() == 0 {
        None
    } else if landmarks.last().local_landmark_id == id {
        Some(landmarks.last().position)
    } else {
        position_of(landmarks.drop_last(), id)
    }
}

/// `matches` are the mutual-best matches, by source landmark.
pub open spec fn are_mutual_matches(
    matches: Seq<SubmapPointMatch>,
    source: Seq<LocalSubmapLandmark>,
    target: Seq<LocalSubmapLandmark>,
    threshold: int,
) -> bool {
    &&& forall|i: int, j: int|
        0 <= i < j < matches.len() ==> (#[trigger] matches[i]).source_landmark_id < (
        #[trigger] matches[j]).source_landmark_id
    &&& forall|k: int|
        0 <= k < matches.len() ==> {
            let found = #[trigger] matches[k];
            &&& is_mutual_best(
                clear_sightings(source),
                sightings(target),
                threshold,
                found.source_landmark_id,
                found.target_landmark_id,
            )
            &&& position_of(source, found.source_landmark_id) == Some(found.source_point)
            &&& position_of(target, found.target_landmark_id) == Some(found.target_point)
        }
    &&& forall|source_id: u64, target_id: u64|
        #[trigger] is_mutual_best(
            clear_sightings(source),
            sightings(target),
            threshold,
            source_id,
            target_id,
        ) ==> exists|k: int| 0 <= k < matches.len() && is_match_of(
            #[trigger] matches[k],
            source_id,
            target_id,
        )
}

/// The match pairs these landmarks.
pub open spec fn is_match_of(found: SubmapPointMatch, source_id: u64, target_id: u64) -> bool {
    found.source_landmark_id == source_id && found.target_landmark_id == target_id
}

fn collect_sightings(landmarks: &Vec<LocalSubmapLandmark>) -> (all: Vec<Sighting>)
    ensures
        all@ == sightings(landmarks@),
{
    let mut all: Vec<Sighting> = Vec::new();
    let mut i: usize = 0;
    while i < landmarks.len()
        invariant
            i <= landmarks.len(),
            all@ == sightings(landmarks@.take(i as int)),
        decreases landmarks.len() - i,
    {
        let landmark = &landmarks[i];
        let ghost before = all@;
        let ghost own = landmark_sightings(*landmark);
        let mut j: usize = 0;
        assert(before + own.take(0) =~= before);
        while j < landmark.observations.len()
            invariant
                j <= landmark.observations.len(),
                own == landmark_sightings(*landmark),
                all@ == before + own.take(j as int),
            decreases landmark.observations.len() - j,
        {
            let observation = landmark.observations[j];
            all.push(
                Sighting {
                    landmark_id: landmark.local_landmark_id,
                    frame_id: observation.source_frame_id,
                    keypoint: observation.keypoint_index,
                },
            );
            j += 1;
            assert(all@ =~= before + own.take(j as int));
        }
        proof {
            lemma_take_all(own);
            assert(landmarks@.take(i + 1).drop_last() =~= landmarks@.take(i as int));
        }
        i += 1;
    }
    proof {
        lemma_take_all(landmarks@);
    }
    all
}

/// What the map from keypoints to landmarks says of a keypoint after some sightings:
/// nothing where none was there, the landmark where one was, ambiguity where more were.
spec fn is_owner_map(map: Map<(u64, usize), Option<u64>>, seen: Seq<Sighting>) -> bool {
    forall|frame_id: u64, keypoint: usize|
        #![trigger map.contains_key((frame_id, keypoint))]
        {
            let found = seen.filter(is_at(frame_id, keypoint));
            &&& map.contains_key((frame_id, keypoint)) <==> found.len() > 0
            &&& map.contains_key((frame_id, keypoint)) ==> map[(frame_id, keypoint)] == owner(
                seen,
                frame_id,
                keypoint,
            )
        }
}

fn index_owners(target: &Vec<Sighting>) -> (owners: BTreeMap<(u64, usize), Option<u64>>)
    ensures
        is_owner_map(owners@, target@),
{
    let mut owners: BTreeMap<(u64, usize), Option<u64>> = BTreeMap::new();
    let mut i: usize = 0;
    proof {
        reveal(Seq::filter);
    }
    while i < target.len()
        invariant
            i <= target.len(),
            is_owner_map(owners@, target@.take(i as int)),
        decreases target.len() - i,
    {
        let sighting = target[i];
        let key: (u64, usize) = (sighting.frame_id, sighting.keypoint);
        let known: bool = owners.contains_key(&key);
        let ghost before = owners@;
        if known {
            owners.insert(key, None);
        } else {
            owners.insert(key, Some(sighting.landmark_id));
        }
        proof {
            let shorter = target@.take(i as int);
            let longer = target@.take(i + 1);
            assert forall|frame_id: u64, keypoint: usize|
                #![trigger owners@.contains_key((frame_id, keypoint))]
                {
                    let found = longer.filter(is_at(frame_id, keypoint));
                    &&& owners@.contains_key((frame_id, keypoint)) <==> found.len() > 0
                    &&& owners@.contains_key((frame_id, keypoint)) ==> owners@[(
                        frame_id,
                        keypoint,
                    )] == owner(longer, frame_id, keypoint)
                } by {
                let p = is_at(frame_id, keypoint);
                lemma_filter_take(target@, i as int, p);
                assert(before.contains_key((frame_id, keypoint)) <==> shorter.filter(p).len() > 0);
            }
        }
        i += 1;
    }
    proof {
        lemma_take_all(target@);
    }
    owners
}

/// Leaves out the sightings that are not alone at their keypoint.
fn keep_clear(all: &Vec<Sighting>) -> (kept: Vec<Sighting>)
    ensures
        kept@ == all@.filter(is_clear(all@)),
{
    let owners = index_owners(all);
    let ghost p = is_clear(all@);
    let mut kept: Vec<Sighting> = Vec::new();
    proof {
        reveal(Seq::filter);
    }
    let mut i: usize = 0;
    while i < all.len()
        invariant
            i <= all.len(),
            p == is_clear(all@),
            is_owner_map(owners@, all@),
            kept@ == all@.take(i as int).filter(p),
        decreases all.len() - i,
    {
        let sighting = all[i];
        let key: (u64, usize) = (sighting.frame_id, sighting.keypoint);
        let found: Option<u64> = match owners.get(&key) {
            Some(entry) => *entry,
            None => None,
        };
        assert(found == owner(all@, sighting.frame_id, sighting.keypoint)) by {
            assert(owners@.contains_key((sighting.frame_id, sighting.keypoint)) <==> all@.filter(
                is_at(sighting.frame_id, sighting.keypoint),
            ).len() > 0);
        }
        proof {
            lemma_filter_take(all@, i as int, p);
        }
        if found.is_some() {
            kept.push(sighting);
        }
        i += 1;
    }
    proof {
        lemma_take_all(all@);
    }
    kept
}

/// A vote: a source landmark and the target landmark that owns one of its keypoints.
#[derive(Clone, Copy, Debug, PartialEq, Eq, Structural)]
struct Vote {
    source_id: u64,
    target_id: u64,
}

/// The map counts the votes of some sightings.
spec fn is_tally(
    map: Map<(u64, u64), usize>,
    source: Seq<Sighting>,
    target: Seq<Sighting>,
) -> bool {
    forall|source_id: u64, target_id: u64|
        #![trigger map.contains_key((source_id, target_id))]
        {
            let count = votes(source, target, source_id, target_id);
            &&& map.contains_key((source_id, target_id)) <==> count > 0
            &&& map.contains_key((source_id, target_id)) ==> map[(source_id, target_id)] == count
        }
}

/// The list holds exactly the pairs with votes.
spec fn lists_votes(list: Seq<Vote>, source: Seq<Sighting>, target: Seq<Sighting>) -> bool {
    &&& forall|k: int|
        0 <= k < list.len() ==> votes(
            source,
            target,
            (#[trigger] list[k]).source_id,
            list[k].target_id,
        ) > 0
    &&& forall|source_id: u64, target_id: u64|
        #[trigger] votes(source, target, source_id, target_id) > 0 ==> list.contains(
            Vote { source_id, target_id },
        )
}

fn tally_votes(source: &Vec<Sighting>, target: &Vec<Sighting>) -> (result: (
    BTreeMap<(u64, u64), usize>,
    Vec<Vote>,
))
    ensures
        is_tally(result.0@, source@, target@),
        lists_votes(result.1@, source@, target@),
{
    let owners = index_owners(target);
    let mut tally: BTreeMap<(u64, u64), usize> = BTreeMap::new();
    let mut list: Vec<Vote> = Vec::new();
    proof {
        reveal(Seq::filter);
    }
    let mut i: usize = 0;
    while i < source.len()
        invariant
            i <= source.len(),
            is_owner_map(owners@, target@),
            is_tally(tally@, source@.take(i as int), target@),
            lists_votes(list@, source@.take(i as int), target@),
        decreases source.len() - i,
    {
        let sighting = source[i];
        let key: (u64, usize) = (sighting.frame_id, sighting.keypoint);
        let ghost shorter = source@.take(i as int);
        let ghost longer = source@.take(i + 1);
        let ghost before = tally@;
        let ghost before_list = list@;
        let found: Option<u64> = match owners.get(&key) {
            Some(entry) => *entry,
            None => None,
        };
        assert(found == owner(target@, sighting.frame_id, sighting.keypoint)) by {
            assert(owners@.contains_key((sighting.frame_id, sighting.keypoint))
                <==> target@.filter(is_at(sighting.frame_id, sighting.keypoint)).len() > 0);
        }
        proof {
            assert forall|source_id: u64, target_id: u64|
                #[trigger] votes(longer, target@, source_id, target_id) == votes(
                    shorter,
                    target@,
                    source_id,
                    target_id,
                ) + (if sighting.landmark_id == source_id && found == Some(target_id) {
                    1nat
                } else {
                    0nat
                }) && votes(shorter, target@, source_id, target_id) <= i by {
                lemma_filter_take(source@, i as int, votes_for(target@, source_id, target_id));
            }
        }
        if let Some(target_id) = found {
            let pair: (u64, u64) = (sighting.landmark_id, target_id);
            let count: usize = match tally.get(&pair) {
                Some(n) => *n,
                None => 0,
            };
            proof {
                assert(before.contains_key((sighting.landmark_id, target_id)) <==> votes(
                    shorter,
                    target@,
                    sighting.landmark_id,
                    target_id,
                ) > 0);
                assert(count == votes(shorter, target@, sighting.landmark_id, target_id));
                assert(votes(longer, target@, sighting.landmark_id, target_id) == count + 1);
            }
            tally.insert(pair, count + 1);
            list.push(Vote { source_id: sighting.landmark_id, target_id });
        }
        proof {
            assert forall|source_id: u64, target_id: u64|
                #![trigger tally@.contains_key((source_id, target_id))]
                {
                    let count = votes(longer, target@, source_id, target_id);
                    &&& tally@.contains_key((source_id, target_id)) <==> count > 0
                    &&& tally@.contains_key((source_id, target_id)) ==> tally@[(
                        source_id,
                        target_id,
                    )] == count
                } by {
                assert(before.contains_key((source_id, target_id)) <==> votes(
                    shorter,
                    target@,
                    source_id,
                    target_id,
                ) > 0);
                assert(votes(longer, target@, source_id, target_id) >= votes(
                    shorter,
                    target@,
                    source_id,
                    target_id,
                ));
            }
            assert forall|k: int| 0 <= k < list.len() implies votes(
                longer,
                target@,
                (#[trigger] list@[k]).source_id,
                list@[k].target_id,
            ) > 0 by {
                if k < before_list.len() {
                    assert(before_list[k] == list@[k]);
                }
                assert(votes(longer, target@, list@[k].source_id, list@[k].target_id) >= votes(
                    shorter,
                    target@,
                    list@[k].source_id,
                    list@[k].target_id,
                ));
            }
            assert forall|source_id: u64, target_id: u64|
                #[trigger] votes(longer, target@, source_id, target_id) > 0 implies list@.contains(
                Vote { source_id, target_id },
            ) by {
                let vote = Vote { source_id, target_id };
                if votes(shorter, target@, source_id, target_id) > 0 {
                    assert(before_list.contains(vote));
                    let k = before_list.index_of(vote);
                    assert(list@[k] == vote);
                } else {
                    assert(list@[list.len() - 1] == vote);
                }
            }
        }
        i += 1;
    }
    proof {
        lemma_take_all(source@);
    }
    (tally, list)
}

/// The map after a candidate was offered: it is taken where there was none, or where it
/// is preferred to the one there.
pub open spec fn updated_best(
    best: Map<u64, (u64, usize)>,
    key: u64,
    candidate: u64,
    count: usize,
) -> Map<u64, (u64, usize)> {
    if !best.contains_key(key) || preferred(
        count as nat,
        candidate,
        best[key].1 as nat,
        best[key].0,
    ) {
        best.insert(key, (candidate, count))
    } else {
        best
    }
}

/// Offers a candidate with its count to the best candidates by key.
pub fn update_best(best: &mut BTreeMap<u64, (u64, usize)>, key: u64, candidate: u64, count: usize)
    ensures
        final(best)@ == updated_best(old(best)@, key, candidate, count),
{
    let replace: bool = match best.get(&key) {
        None => true,
        Some(entry) => count > entry.1 || (count == entry.1 && candidate < entry.0),
    };
    if replace {
        best.insert(key, (candidate, count));
    }
}

/// A candidate for a key.
#[derive(Clone, Copy, Debug, PartialEq, Eq, Structural)]
struct Choice {
    key: u64,
    candidate: u64,
    count: usize,
}

/// The map holds the preferred choice of every key.
spec fn is_best_of(map: Map<u64, (u64, usize)>, choices: Seq<Choice>) -> bool {
    &&& forall|i: int| 0 <= i < choices.len() ==> map.contains_key((#[trigger] choices[i]).key)
    &&& forall|key: u64| #[trigger]
        map.contains_key(key) ==> choices.contains(
            Choice { key, candidate: map[key].0, count: map[key].1 },
        )
    &&& forall|i: int|
        0 <= i < choices.len() ==> {
            let choice = #[trigger] choices[i];
            map[choice.key].0 == choice.candidate || preferred(
                map[choice.key].1 as nat,
                map[choice.key].0,
                choice.count as nat,
                choice.candidate,
            )
        }
}

/// The same candidate for the same key always comes with the same count.
spec fn consistent(choices: Seq<Choice>) -> bool {
    forall|i: int, j: int|
        0 <= i < choices.len() && 0 <= j < choices.len() && (#[trigger] choices[i]).key == (
        #[trigger] choices[j]).key && choices[i].candidate == choices[j].candidate
            ==> choices[i].count == choices[j].count
}

fn best_candidates(choices: &Vec<Choice>) -> (best: BTreeMap<u64, (u64, usize)>)
    requires
        consistent(choices@),
    ensures
        is_best_of(best@, choices@),
{
    let mut best: BTreeMap<u64, (u64, usize)> = BTreeMap::new();
    let mut i: usize = 0;
    while i < choices.len()
        invariant
            i <= choices.len(),
            consistent(choices@),
            is_best_of(best@, choices@.take(i as int)),
        decreases choices.len() - i,
    {
        let choice = choices[i];
        let ghost before = best@;
        let ghost shorter = choices@.take(i as int);
        let ghost longer = choices@.take(i + 1);
        update_best(&mut best, choice.key, choice.candidate, choice.count);
        proof {
            assert(longer =~= shorter.push(choice));
            assert forall|key: u64| #[trigger] best@.contains_key(key) implies longer.contains(
                Choice { key, candidate: best@[key].0, count: best@[key].1 },
            ) by {
                let picked = Choice { key, candidate: best@[key].0, count: best@[key].1 };
                if picked == choice {
                    assert(longer[i as int] == choice);
                } else {
                    assert(before.contains_key(key));
                    assert(shorter.contains(picked));
                    let k = shorter.index_of(picked);
                    assert(longer[k] == picked);
                }
            }
            assert forall|j: int| 0 <= j < longer.len() implies best@.contains_key(
                (#[trigger] longer[j]).key,
            ) by {
                if j < i {
                    assert(shorter[j] == longer[j]);
                }
            }
            assert forall|j: int| 0 <= j < longer.len() implies {
                let other = #[trigger] longer[j];
                best@[other.key].0 == other.candidate || preferred(
                    best@[other.key].1 as nat,
                    best@[other.key].0,
                    other.count as nat,
                    other.candidate,
                )
            } by {
                if j < i {
                    assert(shorter[j] == longer[j]);
                } else if before.contains_key(choice.key) {
                    let picked = Choice {
                        key: choice.key,
                        candidate: before[choice.key].0,
                        count: before[choice.key].1,
                    };
                    assert(shorter.contains(picked));
                    let k = shorter.index_of(picked);
                    assert(choices@[k] == picked);
                    assert(choices@[i as int] == choice);
                }
            }
        }
        i += 1;
    }
    proof {
        lemma_take_all(choices@);
    }
    best
}

/// The choices of either side: every pair with at least `threshold` votes, and nothing
/// else.
spec fn are_choices(
    choices: Seq<Choice>,
    source: Seq<Sighting>,
    target: Seq<Sighting>,
    threshold: int,
    by_source: bool,
) -> bool {
    &&& forall|i: int|
        0 <= i < choices.len() ==> {
            let choice = #[trigger] choices[i];
            let count = if by_source {
                votes(source, target, choice.key, choice.candidate)
            } else {
                votes(source, target, choice.candidate, choice.key)
            };
            choice.count == count && count >= threshold
        }
    &&& forall|source_id: u64, target_id: u64|
        #[trigger] votes(source, target, source_id, target_id) >= threshold ==> choices.contains(
            if by_source {
                Choice {
                    key: source_id,
                    candidate: target_id,
                    count: votes(source, target, source_id, target_id) as usize,
                }
            } else {
                Choice {
                    key: target_id,
                    candidate: source_id,
                    count: votes(source, target, source_id, target_id) as usize,
                }
            },
        )
}

fn collect_choices(
    tally: &BTreeMap<(u64, u64), usize>,
    list: &Vec<Vote>,
    threshold: usize,
    by_source: bool,
    Ghost(source): Ghost<Seq<Sighting>>,
    Ghost(target): Ghost<Seq<Sighting>>,
) -> (choices: Vec<Choice>)
    requires
        threshold > 0,
        is_tally(tally@, source, target),
        lists_votes(list@, source, target),
    ensures
        are_choices(choices@, source, target, threshold as int, by_source),
        consistent(choices@),
{
    let mut choices: Vec<Choice> = Vec::new();
    let mut i: usize = 0;
    while i < list.len()
        invariant
            i <= list.len(),
            threshold > 0,
            is_tally(tally@, source, target),
            lists_votes(list@, source, target),
            forall|k: int|
                0 <= k < choices.len() ==> {
                    let choice = #[trigger] choices[k];
                    let count = if by_source {
                        votes(source, target, choice.key, choice.candidate)
                    } else {
                        votes(source, target, choice.candidate, choice.key)
                    };
                    choice.count == count && count >= threshold
                },
            forall|k: int|
                0 <= k < i ==> {
                    let vote = #[trigger] list[k];
                    let count = votes(source, target, vote.source_id, vote.target_id);
                    count >= threshold ==> choices@.contains(
                        if by_source {
                            Choice {
                                key: vote.source_id,
                                candidate: vote.target_id,
                                count: count as usize,
                            }
                        } else {
                            Choice {
                                key: vote.target_id,
                                candidate: vote.source_id,
                                count: count as usize,
                            }
                        },
                    )
                },
        decreases list.len() - i,
    {
        let vote = list[i];
        let pair: (u64, u64) = (vote.source_id, vote.target_id);
        assert(tally@.contains_key((vote.source_id, vote.target_id)) <==> votes(
            source,
            target,
            vote.source_id,
            vote.target_id,
        ) > 0);
        assert(votes(source, target, list[i as int].source_id, list[i as int].target_id) > 0);
        let count: usize = match tally.get(&pair) {
            Some(n) => *n,
            None => 0,
        };
        let ghost before = choices@;
        if count >= threshold {
            let choice = if by_source {
                Choice { key: vote.source_id, candidate: vote.target_id, count }
            } else {
                Choice { key: vote.target_id, candidate: vote.source_id, count }
            };
            choices.push(choice);
            proof {
                assert(choices@[choices.len() - 1] == choice);
                assert forall|c: Choice| before.contains(c) implies choices@.contains(c) by {
                    let k = before.index_of(c);
                    assert(choices@[k] == c);
                }
            }
        }
        i += 1;
    }
    proof {
        assert forall|source_id: u64, target_id: u64|
            #[trigger] votes(source, target, source_id, target_id) >= threshold implies choices@.contains(
        if by_source {
            Choice {
                key: source_id,
                candidate: target_id,
                count: votes(source, target, source_id, target_id) as usize,
            }
        } else {
            Choice {
                key: target_id,
                candidate: source_id,
                count: votes(source, target, source_id, target_id) as usize,
            }
        }) by {
            let vote = Vote { source_id, target_id };
            assert(list@.contains(vote));
            let k = list@.index_of(vote);
            assert(list[k] == vote);
        }
    }
    choices
}

fn index_positions(landmarks: &Vec<LocalSubmapLandmark>) -> (positions: BTreeMap<u64, Point3>)
    ensures
        forall|id: u64|
            #![trigger positions@.contains_key(id)]
            position_of(landmarks@, id) == if positions@.contains_key(id) {
                Some(positions@[id])
            } else {
                None
            },
{
    let mut positions: BTreeMap<u64, Point3> = BTreeMap::new();
    let mut i: usize = 0;
    while i < landmarks.len()
        invariant
            i <= landmarks.len(),
            forall|id: u64|
                #![trigger positions@.contains_key(id)]
                position_of(landmarks@.take(i as int), id) == if positions@.contains_key(id) {
                    Some(positions@[id])
                } else {
                    None
                },
        decreases landmarks.len() - i,
    {
        let ghost before = positions@;
        positions.insert(landmarks[i].local_landmark_id, landmarks[i].position);
        proof {
            assert(landmarks@.take(i + 1).drop_last() =~= landmarks@.take(i as int));
            assert forall|id: u64|
                #![trigger positions@.contains_key(id)]
                position_of(landmarks@.take(i + 1), id) == if positions@.contains_key(id) {
                    Some(positions@[id])
                } else {
                    None
                } by {
                assert(before.contains_key(id) || !before.contains_key(id));
            }
        }
        i += 1;
    }
    proof {
        lemma_take_all(landmarks@);
    }
    positions
}

/// A landmark with a sighting has a position.
proof fn lemma_sighted_has_position(landmarks: Seq<LocalSubmapLandmark>, k: int)
    requires
        0 <= k < sightings(landmarks).len(),
    ensures
        position_of(landmarks, sightings(landmarks)[k].landmark_id) is Some,
    decreases landmarks.len(),
{
    if landmarks.len() > 0 {
        let rest = sightings(landmarks.drop_last());
        if k < rest.len() {
            lemma_sighted_has_position(landmarks.drop_last(), k);
        }
    }
}

/// Landmarks that share an observation have sightings, and so positions.
proof fn lemma_voters_have_positions(
    source: Seq<LocalSubmapLandmark>,
    target: Seq<LocalSubmapLandmark>,
    source_id: u64,
    target_id: u64,
)
    requires
        votes(clear_sightings(source), sightings(target), source_id, target_id) > 0,
    ensures
        position_of(source, source_id) is Some,
        position_of(target, target_id) is Some,
        exists|k: int|
            0 <= k < clear_sightings(source).len() && (#[trigger] clear_sightings(source)[k]).landmark_id
                == source_id,
{
    let all = clear_sightings(source);
    let others = sightings(target);
    let p = votes_for(others, source_id, target_id);
    let at = lemma_filter_positions(all, p);
    let k = at[0];
    assert(p(all[k]));
    let among = lemma_filter_positions(sightings(source), is_clear(sightings(source)));
    assert(sightings(source)[among[k]] == all[k]);
    lemma_sighted_has_position(source, among[k]);
    let q = is_at(all[k].frame_id, all[k].keypoint);
    let there = lemma_filter_positions(others, q);
    assert(others[there[0]] == others.filter(q)[0]);
    lemma_sighted_has_position(target, there[0]);
}

fn landmark_ids(landmarks: &Vec<LocalSubmapLandmark>) -> (ids: Vec<u64>)
    ensures
        ids@ == landmarks@.map_values(|landmark: LocalSubmapLandmark| landmark.local_landmark_id),
{
    let mut ids: Vec<u64> = Vec::new();
    let mut i: usize = 0;
    while i < landmarks.len()
        invariant
            i <= landmarks.len(),
            ids.len() == i,
            forall|k: int| 0 <= k < i ==> #[trigger] ids[k] == landmarks[k].local_landmark_id,
        decreases landmarks.len() - i,
    {
        ids.push(landmarks[i].local_landmark_id);
        i += 1;
    }
    assert(ids@ =~= landmarks@.map_values(
        |landmark: LocalSubmapLandmark| landmark.local_landmark_id,
    ));
    ids
}

proof fn lemma_position_has_id(landmarks: Seq<LocalSubmapLandmark>, id: u64)
    requires
        position_of(landmarks, id) is Some,
    ensures
        landmarks.map_values(
            |landmark: LocalSubmapLandmark| landmark.local_landmark_id,
        ).contains(id),
    decreases landmarks.len(),
{
    let ids = landmarks.map_values(|landmark: LocalSubmapLandmark| landmark.local_landmark_id);
    if landmarks.last().local_landmark_id == id {
        assert(ids[landmarks.len() - 1] == id);
    } else {
        let rest = landmarks.drop_last();
        lemma_position_has_id(rest, id);
        let rest_ids = rest.map_values(
            |landmark: LocalSubmapLandmark| landmark.local_landmark_id,
        );
        let k = rest_ids.index_of(id);
        assert(ids[k] == id);
    }
}

/// The two best maps agree on a pair exactly where it is mutually best.
proof fn lemma_mutual(
    source: Seq<Sighting>,
    target: Seq<Sighting>,
    threshold: int,
    by_source: Seq<Choice>,
    by_target: Seq<Choice>,
    best_by_source: Map<u64, (u64, usize)>,
    best_by_target: Map<u64, (u64, usize)>,
    source_id: u64,
    target_id: u64,
)
    requires
        threshold > 0,
        source.len() <= usize::MAX,
        are_choices(by_source, source, target, threshold, true),
        are_choices(by_target, source, target, threshold, false),
        is_best_of(best_by_source, by_source),
        is_best_of(best_by_target, by_target),
    ensures
        is_mutual_best(source, target, threshold, source_id, target_id) <==> {
            &&& best_by_source.contains_key(source_id)
            &&& best_by_source[source_id].0 == target_id
            &&& best_by_target.contains_key(target_id)
            &&& best_by_target[target_id].0 == source_id
        },
{
    let count = votes(source, target, source_id, target_id);
    source.lemma_filter_len(votes_for(target, source_id, target_id));
    let as_source = Choice { key: source_id, candidate: target_id, count: count as usize };
    let as_target = Choice { key: target_id, candidate: source_id, count: count as usize };
    let agree = {
        &&& best_by_source.contains_key(source_id)
        &&& best_by_source[source_id].0 == target_id
        &&& best_by_target.contains_key(target_id)
        &&& best_by_target[target_id].0 == source_id
    };
    if agree {
        let s = Choice {
            key: source_id,
            candidate: best_by_source[source_id].0,
            count: best_by_source[source_id].1,
        };
        assert(by_source.contains(s));
        let i = by_source.index_of(s);
        assert(by_source[i] == s);
        let t = Choice {
            key: target_id,
            candidate: best_by_target[target_id].0,
            count: best_by_target[target_id].1,
        };
        assert(by_target.contains(t));
        let j = by_target.index_of(t);
        assert(by_target[j] == t);
        assert forall|other: u64|
            other != target_id && (#[trigger] votes(source, target, source_id, other))
                >= threshold implies preferred(
            count,
            target_id,
            votes(source, target, source_id, other),
            other,
        ) by {
            source.lemma_filter_len(votes_for(target, source_id, other));
            let c = Choice {
                key: source_id,
                candidate: other,
                count: votes(source, target, source_id, other) as usize,
            };
            assert(by_source.contains(c));
            let k = by_source.index_of(c);
            assert(by_source[k] == c);
        }
        assert forall|other: u64|
            other != source_id && (#[trigger] votes(source, target, other, target_id))
                >= threshold implies preferred(
            count,
            source_id,
            votes(source, target, other, target_id),
            other,
        ) by {
            source.lemma_filter_len(votes_for(target, other, target_id));
            let c = Choice {
                key: target_id,
                candidate: other,
                count: votes(source, target, other, target_id) as usize,
            };
            assert(by_target.contains(c));
            let k = by_target.index_of(c);
            assert(by_target[k] == c);
        }
    }
    if is_mutual_best(source, target, threshold, source_id, target_id) {
        assert(by_source.contains(as_source));
        let i = by_source.index_of(as_source);
        assert(by_source[i] == as_source);
        let s = Choice {
            key: source_id,
            candidate: best_by_source[source_id].0,
            count: best_by_source[source_id].1,
        };
        assert(by_source.contains(s));
        let k = by_source.index_of(s);
        assert(by_source[k] == s);
        assert(votes(source, target, source_id, s.candidate) >= threshold);
        assert(by_target.contains(as_target));
        let j = by_target.index_of(as_target);
        assert(by_target[j] == as_target);
        let t = Choice {
            key: target_id,
            candidate: best_by_target[target_id].0,
            count: best_by_target[target_id].1,
        };
        assert(by_target.contains(t));
        let l = by_target.index_of(t);
        assert(by_target[l] == t);
        assert(votes(source, target, t.candidate, target_id) >= threshold);
    }
}

/// Builds mutual-best one-to-one 3D matches from shared image observations. Ambiguous
/// observations do not vote; one vote is required at least.
pub fn shared_landmark_point_matches(
    source: &LocalSubmap,
    target: &LocalSubmap,
    min_shared_observations: usize,
) -> (matches: Vec<SubmapPointMatch>)
    ensures
        are_mutual_matches(
            matches@,
            source.landmarks@,
            target.landmarks@,
            if min_shared_observations == 0 {
                1
            } else {
                min_shared_observations as int
            },
        ),
{
    let threshold: usize = if min_shared_observations == 0 { 1 } else { min_shared_observations };
    let all_source_sightings = collect_sightings(&source.landmarks);
    let source_sightings = keep_clear(&all_source_sightings);
    let target_sightings = collect_sightings(&target.landmarks);
    let ghost ss = source_sightings@;
    let ghost ts = target_sightings@;
    let (tally, list) = tally_votes(&source_sightings, &target_sightings);
    let by_source = collect_choices(&tally, &list, threshold, true, Ghost(ss), Ghost(ts));
    let by_target = collect_choices(&tally, &list, threshold, false, Ghost(ss), Ghost(ts));
    let best_by_source = best_candidates(&by_source);
    let best_by_target = best_candidates(&by_target);
    let source_points = index_positions(&source.landmarks);
    let target_points = index_positions(&target.landmarks);
    let all_ids = landmark_ids(&source.landmarks);
    let ids = sorted_set(&all_ids);
    let mut matches: Vec<SubmapPointMatch> = Vec::new();
    proof {
        assert(ss.len() == source_sightings.len());
        assert forall|source_id: u64, target_id: u64|
            #[trigger] is_mutual_best(ss, ts, threshold as int, source_id, target_id) <==> {
                &&& best_by_source@.contains_key(source_id)
                &&& best_by_source@[source_id].0 == target_id
                &&& best_by_target@.contains_key(target_id)
                &&& best_by_target@[target_id].0 == source_id
            } by {
            lemma_mutual(
                ss,
                ts,
                threshold as int,
                by_source@,
                by_target@,
                best_by_source@,
                best_by_target@,
                source_id,
                target_id,
            );
        }
    }
    let mut i: usize = 0;
    while i < ids.len()
        invariant
            i <= ids.len(),
            threshold > 0,
            ss == clear_sightings(source.landmarks@),
            ts == sightings(target.landmarks@),
            strictly_increasing(ids@),
            forall|source_id: u64, target_id: u64|
                #[trigger] is_mutual_best(ss, ts, threshold as int, source_id, target_id) <==> {
                    &&& best_by_source@.contains_key(source_id)
                    &&& best_by_source@[source_id].0 == target_id
                    &&& best_by_target@.contains_key(target_id)
                    &&& best_by_target@[target_id].0 == source_id
                },
            forall|id: u64|
                #![trigger source_points@.contains_key(id)]
                position_of(source.landmarks@, id) == if source_points@.contains_key(id) {
                    Some(source_points@[id])
                } else {
                    None
                },
            forall|id: u64|
                #![trigger target_points@.contains_key(id)]
                position_of(target.landmarks@, id) == if target_points@.contains_key(id) {
                    Some(target_points@[id])
                } else {
                    None
                },
            forall|k: int|
                0 <= k < matches.len() ==> {
                    let found = #[trigger] matches[k];
                    &&& is_mutual_best(
                        ss,
                        ts,
                        threshold as int,
                        found.source_landmark_id,
                        found.target_landmark_id,
                    )
                    &&& position_of(source.landmarks@, found.source_landmark_id) == Some(
                        found.source_point,
                    )
                    &&& position_of(target.landmarks@, found.target_landmark_id) == Some(
                        found.target_point,
                    )
                },
            forall|a: int, b: int|
                0 <= a < b < matches.len() ==> (#[trigger] matches[a]).source_landmark_id < (
                #[trigger] matches[b]).source_landmark_id,
            forall|k: int|
                0 <= k < matches.len() && i < ids.len() ==> (
                #[trigger] matches[k]).source_landmark_id < ids[i as int],
            forall|j: int, target_id: u64|
                #![trigger is_mutual_best(ss, ts, threshold as int, ids[j], target_id)]
                0 <= j < i && is_mutual_best(ss, ts, threshold as int, ids[j], target_id)
                    ==> exists|k: int|
                    0 <= k < matches.len() && is_match_of(#[trigger] matches[k], ids[j], target_id),
        decreases ids.len() - i,
    {
        let source_id: u64 = ids[i];
        let ghost before = matches@;
        if let Some(entry) = best_by_source.get(&source_id) {
            let target_id: u64 = entry.0;
            let mutual: bool = match best_by_target.get(&target_id) {
                Some(other) => other.0 == source_id,
                None => false,
            };
            assert(mutual <==> is_mutual_best(ss, ts, threshold as int, source_id, target_id));
            if mutual {
                proof {
                    lemma_voters_have_positions(
                        source.landmarks@,
                        target.landmarks@,
                        source_id,
                        target_id,
                    );
                    assert(source_points@.contains_key(source_id));
                    assert(target_points@.contains_key(target_id));
                }
                if let (Some(source_point), Some(target_point)) = (
                    source_points.get(&source_id),
                    target_points.get(&target_id),
                ) {
                    matches.push(
                        SubmapPointMatch {
                            source_landmark_id: source_id,
                            target_landmark_id: target_id,
                            source_point: *source_point,
                            target_point: *target_point,
                        },
                    );
                    assert(is_match_of(matches[matches.len() - 1], source_id, target_id));
                }
            }
        }
        proof {
            assert forall|j: int, target_id: u64|
                #![trigger is_mutual_best(ss, ts, threshold as int, ids[j], target_id)]
                0 <= j < i + 1 && is_mutual_best(
                    ss,
                    ts,
                    threshold as int,
                    ids[j],
                    target_id,
                ) implies exists|k: int|
                0 <= k < matches.len() && is_match_of(#[trigger] matches[k], ids[j], target_id) by {
                if j < i {
                    let k = choose|k: int|
                        0 <= k < before.len() && is_match_of(
                            #[trigger] before[k],
                            ids[j],
                            target_id,
                        );
                    assert(matches[k] == before[k]);
                } else {
                    assert(is_match_of(matches[matches.len() - 1], ids[j], target_id));
                }
            }
        }
        i += 1;
    }
    proof {
        assert forall|source_id: u64, target_id: u64|
            #[trigger] is_mutual_best(
                ss,
                ts,
                threshold as int,
                source_id,
                target_id,
            ) implies exists|k: int|
            0 <= k < matches.len() && is_match_of(#[trigger] matches[k], source_id, target_id) by {
            lemma_voters_have_positions(
                source.landmarks@,
                target.landmarks@,
                source_id,
                target_id,
            );
            lemma_position_has_id(source.landmarks@, source_id);
            assert(ids@.contains(source_id));
            let j = ids@.index_of(source_id);
            assert(is_mutual_best(ss, ts, threshold as int, ids[j], target_id));
        }
    }
    matches
}

/// Mutual-best matches are one-to-one: no landmark occurs twice, on either side.
pub proof fn mutual_matches_are_one_to_one(
    matches: Seq<SubmapPointMatch>,
    source: Seq<LocalSubmapLandmark>,
    target: Seq<LocalSubmapLandmark>,
    threshold: int,
    i: int,
    j: int,
)
    requires
        are_mutual_matches(matches, source, target, threshold),
        0 <= i < j < matches.len(),
    ensures
        matches[i].source_landmark_id != matches[j].source_landmark_id,
        matches[i].target_landmark_id != matches[j].target_landmark_id,
{
    let a = matches[i];
    let b = matches[j];
    if a.target_landmark_id == b.target_landmark_id {
        let ss = clear_sightings(source);
        let ts = sightings(target);
        assert(votes(ss, ts, b.source_landmark_id, a.target_landmark_id) >= threshold);
        assert(votes(ss, ts, a.source_landmark_id, b.target_landmark_id) >= threshold);
    }
}

/// There is only one list of mutual-best matches.
pub proof fn mutual_matches_are_unique(
    left: Seq<SubmapPointMatch>,
    right: Seq<SubmapPointMatch>,
    source: Seq<LocalSubmapLandmark>,
    target: Seq<LocalSubmapLandmark>,
    threshold: int,
)
    requires
        are_mutual_matches(left, source, target, threshold),
        are_mutual_matches(right, source, target, threshold),
    ensures
        left == right,
{
    let l = left.map_values(|m: SubmapPointMatch| m.source_landmark_id);
    let r = right.map_values(|m: SubmapPointMatch| m.source_landmark_id);
    assert forall|id: u64| l.contains(id) <==> r.contains(id) by {
        if l.contains(id) {
            let i = l.index_of(id);
            let a = left[i];
            assert(is_mutual_best(
                clear_sightings(source),
                sightings(target),
                threshold,
                a.source_landmark_id,
                a.target_landmark_id,
            ));
            let k = choose|k: int|
                0 <= k < right.len() && is_match_of(
                    #[trigger] right[k],
                    a.source_landmark_id,
                    a.target_landmark_id,
                );
            assert(r[k] == id);
        }
        if r.contains(id) {
            let i = r.index_of(id);
            let a = right[i];
            assert(is_mutual_best(
                clear_sightings(source),
                sightings(target),
                threshold,
                a.source_landmark_id,
                a.target_landmark_id,
            ));
            let k = choose|k: int|
                0 <= k < left.len() && is_match_of(
                    #[trigger] left[k],
                    a.source_landmark_id,
                    a.target_landmark_id,
                );
            assert(l[k] == id);
        }
    }
    assert(strictly_increasing(l)) by {
        assert forall|i: int, j: int| 0 <= i < j < l.len() implies l[i] < l[j] by {
            assert(left[i].source_landmark_id < left[j].source_landmark_id);
        }
    }
    assert(strictly_increasing(r)) by {
        assert forall|i: int, j: int| 0 <= i < j < r.len() implies r[i] < r[j] by {
            assert(right[i].source_landmark_id < right[j].source_landmark_id);
        }
    }
    lemma_increasing_is_unique(l, r);
    assert(left.len() == l.len() && right.len() == r.len());
    assert forall|k: int| 0 <= k < left.len() implies left[k] == right[k] by {
        assert(l[k] == r[k]);
        let a = left[k];
        let b = right[k];
        let ss = clear_sightings(source);
        let ts = sightings(target);
        if a.target_landmark_id != b.target_landmark_id {
            assert(votes(ss, ts, a.source_landmark_id, b.target_landmark_id) >= threshold);
            assert(votes(ss, ts, b.source_landmark_id, a.target_landmark_id) >= threshold);
        }
    }
}

/// The last frame with an id.
pub open spec fn frame_of(frames: Seq<LocalSubmapFrame>, id: u64) -> Option<LocalSubmapFrame>
    decreases frames.len(),
{
    if frames.len() == 0 {
        None
    } else if frames.last().source_frame_id == id {
        Some(frames.last())
    } else {
        frame_of(frames.drop_last(), id)
    }
}

fn index_frames(frames: &Vec<LocalSubmapFrame>) -> (index: BTreeMap<u64, LocalSubmapFrame>)
    ensures
        forall|id: u64|
            #![trigger index@.contains_key(id)]
            frame_of(frames@, id) == if index@.contains_key(id) {
                Some(index@[id])
            } else {
                None
            },
{
    let mut index: BTreeMap<u64, LocalSubmapFrame> = BTreeMap::new();
    let mut i: usize = 0;
    while i < frames.len()
        invariant
            i <= frames.len(),
            forall|id: u64|
                #![trigger index@.contains_key(id)]
                frame_of(frames@.take(i as int), id) == if index@.contains_key(id) {
                    Some(index@[id])
                } else {
                    None
                },
        decreases frames.len() - i,
    {
        let ghost before = index@;
        index.insert(frames[i].source_frame_id, frames[i]);
        proof {
            assert(frames@.take(i + 1).drop_last() =~= frames@.take(i as int));
            assert forall|id: u64|
                #![trigger index@.contains_key(id)]
                frame_of(frames@.take(i + 1), id) == if index@.contains_key(id) {
                    Some(index@[id])
                } else {
                    None
                } by {
                assert(before.contains_key(id) || !before.contains_key(id));
            }
        }
        i += 1;
    }
    proof {
        lemma_take_all(frames@);
    }
    index
}

fn look_up(index: &BTreeMap<u64, LocalSubmapFrame>, id: u64, Ghost(frames): Ghost<
    Seq<LocalSubmapFrame>,
>) -> (found: Option<LocalSubmapFrame>)
    requires
        forall|id: u64|
            #![trigger index@.contains_key(id)]
            frame_of(frames, id) == if index@.contains_key(id) {
                Some(index@[id])
            } else {
                None
            },
    ensures
        found == frame_of(frames, id),
{
    assert(index@.contains_key(id) || !index@.contains_key(id));
    match index.get(&id) {
        Some(frame) => Some(*frame),
        None => None,
    }
}

/// The camera centres of the source frames that the target has too, in source order.
pub open spec fn shared_centers(
    source: Seq<LocalSubmapFrame>,
    target: Seq<LocalSubmapFrame>,
) -> Seq<SubmapPointMatch>
    decreases source.len(),
{
    if source.len() == 0 {
        Seq::empty()
    } else {
        let rest = shared_centers(source.drop_last(), target);
        let frame = source.last();
        match frame_of(target, frame.source_frame_id) {
            Some(other) => rest.push(
                SubmapPointMatch {
                    source_landmark_id: frame.source_frame_id,
                    target_landmark_id: frame.source_frame_id,
                    source_point: frame.camera_center,
                    target_point: other.camera_center,
                },
            ),
            None => rest,
        }
    }
}

/// Corresponding camera centres of frames registered in both submaps. They stay separate
/// from landmark matches so that trajectory consistency can be audited.
pub fn shared_camera_center_matches(source: &LocalSubmap, target: &LocalSubmap) -> (matches: Vec<
    SubmapPointMatch,
>)
    ensures
        matches@ == shared_centers(source.frames@, target.frames@),
{
    let index = index_frames(&target.frames);
    let mut matches: Vec<SubmapPointMatch> = Vec::new();
    let mut i: usize = 0;
    while i < source.frames.len()
        invariant
            i <= source.frames.len(),
            forall|id: u64|
                #![trigger index@.contains_key(id)]
                frame_of(target.frames@, id) == if index@.contains_key(id) {
                    Some(index@[id])
                } else {
                    None
                },
            matches@ == shared_centers(source.frames@.take(i as int), target.frames@),
        decreases source.frames.len() - i,
    {
        let frame = source.frames[i];
        proof {
            assert(source.frames@.take(i + 1).drop_last() =~= source.frames@.take(i as int));
        }
        match look_up(&index, frame.source_frame_id, Ghost(target.frames@)) {
            Some(other) => {
                matches.push(
                    SubmapPointMatch {
                        source_landmark_id: frame.source_frame_id,
                        target_landmark_id: frame.source_frame_id,
                        source_point: frame.camera_center,
                        target_point: other.camera_center,
                    },
                );
            },
            None => {},
        }
        i += 1;
    }
    proof {
        lemma_take_all(source.frames@);
    }
    matches
}

/// How a rotation candidate comes about: the source frame's and the target frame's
/// poses, and the pair's rotation, taken backwards where the source frame is image `j`.
#[derive(Clone, Copy, Debug, PartialEq, Eq, Structural)]
pub struct RotationChain {
    pub source_pose: Pose,
    pub target_pose: Pose,
    pub pair_rotation: Quaternion,
    pub inverted: bool,
    pub inlier_count: usize,
}

/// The candidates of one pair: with image `i` in the source and `j` in the target, and
/// the other way round.
pub open spec fn pair_chains(
    source: Seq<LocalSubmapFrame>,
    target: Seq<LocalSubmapFrame>,
    pair: PairRotationEvidence,
) -> Seq<RotationChain> {
    if pair.image_i == pair.image_j {
        Seq::empty()
    } else {
        let forward = match (frame_of(source, pair.image_i), frame_of(target, pair.image_j)) {
            (Some(s), Some(t)) => seq![
                RotationChain {
                    source_pose: s.pose,
                    target_pose: t.pose,
                    pair_rotation: pair.image_j_from_i,
                    inverted: false,
                    inlier_count: pair.inlier_count,
                },
            ],
            _ => Seq::empty(),
        };
        match (frame_of(source, pair.image_j), frame_of(target, pair.image_i)) {
            (Some(s), Some(t)) => forward.push(
                RotationChain {
                    source_pose: s.pose,
                    target_pose: t.pose,
                    pair_rotation: pair.image_j_from_i,
                    inverted: true,
                    inlier_count: pair.inlier_count,
                },
            ),
            _ => forward,
        }
    }
}

/// The candidates of all pairs, in order.
pub open spec fn rotation_chains(
    source: Seq<LocalSubmapFrame>,
    target: Seq<LocalSubmapFrame>,
    evidence: Seq<PairRotationEvidence>,
) -> Seq<RotationChain>
    decreases evidence.len(),
{
    if evidence.len() == 0 {
        Seq::empty()
    } else {
        rotation_chains(source, target, evidence.drop_last()) + pair_chains(
            source,
            target,
            evidence.last(),
        )
    }
}

/// Which pairs connect a source frame with a target frame, and how.
pub fn gauge_rotation_candidates(
    source: &LocalSubmap,
    target: &LocalSubmap,
    evidence: &Vec<PairRotationEvidence>,
) -> (chains: Vec<RotationChain>)
    ensures
        chains@ == rotation_chains(source.frames@, target.frames@, evidence@),
{
    let source_index = index_frames(&source.frames);
    let target_index = index_frames(&target.frames);
    let mut chains: Vec<RotationChain> = Vec::new();
    let mut i: usize = 0;
    while i < evidence.len()
        invariant
            i <= evidence.len(),
            forall|id: u64|
                #![trigger source_index@.contains_key(id)]
                frame_of(source.frames@, id) == if source_index@.contains_key(id) {
                    Some(source_index@[id])
                } else {
                    None
                },
            forall|id: u64|
                #![trigger target_index@.contains_key(id)]
                frame_of(target.frames@, id) == if target_index@.contains_key(id) {
                    Some(target_index@[id])
                } else {
                    None
                },
            chains@ == rotation_chains(source.frames@, target.frames@, evidence@.take(i as int)),
        decreases evidence.len() - i,
    {
        let pair = evidence[i];
        let ghost before = chains@;
        proof {
            assert(evidence@.take(i + 1).drop_last() =~= evidence@.take(i as int));
        }
        if pair.image_i != pair.image_j {
            let source_i = look_up(&source_index, pair.image_i, Ghost(source.frames@));
            let target_j = look_up(&target_index, pair.image_j, Ghost(target.frames@));
            if let (Some(s), Some(t)) = (source_i, target_j) {
                chains.push(
                    RotationChain {
                        source_pose: s.pose,
                        target_pose: t.pose,
                        pair_rotation: pair.image_j_from_i,
                        inverted: false,
                        inlier_count: pair.inlier_count,
                    },
                );
            }
            let source_j = look_up(&source_index, pair.image_j, Ghost(source.frames@));
            let target_i = look_up(&target_index, pair.image_i, Ghost(target.frames@));
            if let (Some(s), Some(t)) = (source_j, target_i) {
                chains.push(
                    RotationChain {
                        source_pose: s.pose,
                        target_pose: t.pose,
                        pair_rotation: pair.image_j_from_i,
                        inverted: true,
                        inlier_count: pair.inlier_count,
                    },
                );
            }
        }
        assert(chains@ =~= before + pair_chains(source.frames@, target.frames@, pair));
        i += 1;
    }
    proof {
        lemma_take_all(evidence@);
    }
    chains
}

/// The arithmetic that the overlap evidence rests on.
pub struct OverlapNumerics<C, A, Z, T, D> {
    /// The rotation from the source gauge into the target gauge along a chain.
    pub compose: C,
    /// The angle between two rotations, in radians.
    pub angle: A,
    /// The sum of angles, each multiplied by its weight, or by one where that is zero.
    pub residual: Z,
    /// A limit in degrees, or zero where it is negative, in radians.
    pub radius: T,
    /// Radians in degrees.
    pub degrees: D,
}

impl<C, A, Z, T, D> OverlapNumerics<C, A, Z, T, D> where
    C: Fn(&RotationChain) -> Quaternion,
    A: Fn(&Quaternion, &Quaternion) -> Scalar,
    Z: Fn(&Vec<Scalar>, &Vec<usize>) -> Scalar,
    T: Fn(Scalar) -> Scalar,
    D: Fn(Scalar) -> Scalar,
{
    /// The functions take any argument.
    pub open spec fn callable(self) -> bool {
        &&& forall|chain: RotationChain| call_requires(self.compose, (&chain,))
        &&& forall|left: Quaternion, right: Quaternion| call_requires(self.angle, (&left, &right))
        &&& forall|angles: Vec<Scalar>, weights: Vec<usize>|
            call_requires(self.residual, (&angles, &weights))
        &&& forall|limit: Scalar| call_requires(self.radius, (limit,))
        &&& forall|angle: Scalar| call_requires(self.degrees, (angle,))
    }

    /// `residual` is the weighted sum of these angles.
    pub open spec fn weighs(self, angles: Seq<Scalar>, weights: Seq<usize>, residual: Scalar) -> bool {
        exists|a: Vec<Scalar>, w: Vec<usize>|
            a@ == angles && w@ == weights && #[trigger] call_ensures(
                self.residual,
                (&a, &w),
                residual,
            )
    }
}

/// The rotation candidates: their rotations, their supports, and the angles between any
/// two of them.
#[verifier::ext_equal]
pub struct CandidateModel {
    pub rotations: Seq<Quaternion>,
    pub supports: Seq<usize>,
    pub angles: Seq<Seq<Scalar>>,
    pub radius: Scalar,
}

impl CandidateModel {
    /// Selects the candidates within the radius of one.
    pub open spec fn is_near(self, seed: int) -> spec_fn(int) -> bool {
        |k: int| self.angles[seed][k].le(self.radius)
    }

    /// The candidates within the radius of one.
    pub open spec fn inliers(self, seed: int) -> Seq<usize> {
        indices_where(self.rotations.len(), self.is_near(seed))
    }

    /// The joint support of some candidates.
    pub open spec fn support_of(self, indices: Seq<usize>) -> int
        decreases indices.len(),
    {
        if indices.len() == 0 {
            0
        } else {
            self.support_of(indices.drop_last()) + self.supports[indices.last() as int]
        }
    }

    /// The angles of some candidates from one.
    pub open spec fn angles_at(self, seed: int, indices: Seq<usize>) -> Seq<Scalar> {
        indices.map_values(|k: usize| self.angles[seed][k as int])
    }

    /// The supports of some candidates.
    pub open spec fn supports_at(self, indices: Seq<usize>) -> Seq<usize> {
        indices.map_values(|k: usize| self.supports[k as int])
    }
}

/// The support of all candidates together.
pub open spec fn total_support(chains: Seq<RotationChain>) -> int
    decreases chains.len(),
{
    if chains.len() == 0 {
        0
    } else {
        total_support(chains.drop_last()) + chains.last().inlier_count
    }
}

/// The best seed so far.
pub struct BestSeed {
    pub seed: int,
    pub inliers: Seq<usize>,
    pub support: int,
    pub residual: Scalar,
}

/// A seed is better: more support, on equal support a smaller residual, and on equal
/// residuals an earlier seed.
pub open spec fn better_seed(
    candidates: CandidateModel,
    residuals: Seq<Scalar>,
    seed: int,
    best: BestSeed,
) -> bool {
    let support = candidates.support_of(candidates.inliers(seed));
    ||| support > best.support
    ||| support == best.support && residuals[seed].lt(best.residual)
    ||| support == best.support && residuals[seed].le(best.residual) && best.residual.le(
        residuals[seed],
    ) && seed < best.seed
}

/// The best of the first `n` seeds.
pub open spec fn best_seed(candidates: CandidateModel, residuals: Seq<Scalar>, n: nat) -> BestSeed
    decreases n,
{
    if n == 0 {
        BestSeed { seed: 0, inliers: Seq::empty(), support: 0, residual: Scalar::infinity() }
    } else {
        let best = best_seed(candidates, residuals, (n - 1) as nat);
        if better_seed(candidates, residuals, n - 1, best) {
            BestSeed {
                seed: n - 1,
                inliers: candidates.inliers(n - 1),
                support: candidates.support_of(candidates.inliers(n - 1)),
                residual: residuals[n - 1],
            }
        } else {
            best
        }
    }
}

/// The candidates and the residuals of their clusters are what the arithmetic makes of
/// the chains.
pub open spec fn are_candidates_of<C, A, Z, T, D>(
    candidates: CandidateModel,
    residuals: Seq<Scalar>,
    chains: Seq<RotationChain>,
    limit_deg: Scalar,
    numerics: OverlapNumerics<C, A, Z, T, D>,
) -> bool where
    C: Fn(&RotationChain) -> Quaternion,
    A: Fn(&Quaternion, &Quaternion) -> Scalar,
    Z: Fn(&Vec<Scalar>, &Vec<usize>) -> Scalar,
    T: Fn(Scalar) -> Scalar,
    D: Fn(Scalar) -> Scalar,
{
    &&& candidates.rotations.len() == chains.len()
    &&& candidates.supports == chains.map_values(|chain: RotationChain| chain.inlier_count)
    &&& candidates.angles.len() == chains.len()
    &&& residuals.len() == chains.len()
    &&& call_ensures(numerics.radius, (limit_deg,), candidates.radius)
    &&& forall|k: int|
        0 <= k < chains.len() ==> call_ensures(
            numerics.compose,
            (&chains[k],),
            #[trigger] candidates.rotations[k],
        )
    &&& forall|i: int|
        0 <= i < chains.len() ==> (#[trigger] candidates.angles[i]).len() == chains.len()
    &&& forall|i: int, j: int|
        0 <= i < chains.len() && 0 <= j < chains.len() ==> call_ensures(
            numerics.angle,
            (&candidates.rotations[i], &candidates.rotations[j]),
            #[trigger] candidates.angles[i][j],
        )
    &&& forall|i: int|
        0 <= i < chains.len() ==> numerics.weighs(
            candidates.angles_at(i, candidates.inliers(i)),
            candidates.supports_at(candidates.inliers(i)),
            #[trigger] residuals[i],
        )
}

proof fn lemma_support_bound(candidates: CandidateModel, indices: Seq<usize>)
    requires
        forall|k: int| 0 <= k < indices.len() ==> (#[trigger] indices[k]) < candidates.supports.len(),
        forall|i: int, j: int| 0 <= i < j < indices.len() ==> indices[i] < indices[j],
    ensures
        0 <= candidates.support_of(indices) <= sum_of(candidates.supports),
    decreases indices.len(),
{
    lemma_support_prefix(candidates, indices, candidates.supports.len());
    assert(candidates.supports.take(candidates.supports.len() as int) =~= candidates.supports);
}

spec fn sum_of(values: Seq<usize>) -> int
    decreases values.len(),
{
    if values.len() == 0 {
        0
    } else {
        sum_of(values.drop_last()) + values.last()
    }
}

proof fn lemma_support_prefix(candidates: CandidateModel, indices: Seq<usize>, n: nat)
    requires
        n <= candidates.supports.len(),
        forall|k: int| 0 <= k < indices.len() ==> (#[trigger] indices[k]) < n,
        forall|i: int, j: int| 0 <= i < j < indices.len() ==> indices[i] < indices[j],
    ensures
        0 <= candidates.support_of(indices) <= sum_of(candidates.supports.take(n as int)),
    decreases n,
{
    if n > 0 {
        let m = (n - 1) as nat;
        assert(candidates.supports.take(n as int).drop_last() =~= candidates.supports.take(
            m as int,
        ));
        if indices.len() > 0 && indices.last() == m {
            let rest = indices.drop_last();
            assert forall|k: int| 0 <= k < rest.len() implies (#[trigger] rest[k]) < m by {
                assert(indices[k] < indices[indices.len() - 1]);
            }
            assert forall|i: int, j: int| 0 <= i < j < rest.len() implies rest[i] < rest[j] by {
                assert(indices[i] < indices[j]);
            }
            lemma_support_prefix(candidates, rest, m);
        } else {
            assert forall|k: int| 0 <= k < indices.len() implies (#[trigger] indices[k]) < m by {
                if k < indices.len() - 1 {
                    assert(indices[k] < indices[indices.len() - 1]);
                }
            }
            lemma_support_prefix(candidates, indices, m);
        }
    }
}

proof fn lemma_total_support(chains: Seq<RotationChain>)
    ensures
        sum_of(chains.map_values(|chain: RotationChain| chain.inlier_count)) == total_support(
            chains,
        ),
    decreases chains.len(),
{
    if chains.len() > 0 {
        let all = chains.map_values(|chain: RotationChain| chain.inlier_count);
        let rest = chains.drop_last();
        assert(all.drop_last() =~= rest.map_values(|chain: RotationChain| chain.inlier_count));
        lemma_total_support(rest);
    }
}

/// The candidates within the radius of one, and their angles and supports.
fn collect_near(row: &Vec<Scalar>, supports: &Vec<usize>, radius: Scalar, Ghost(candidates): Ghost<
    CandidateModel,
>, Ghost(seed): Ghost<int>) -> (near: (Vec<usize>, Vec<Scalar>, Vec<usize>))
    requires
        row.len() == supports.len(),
        candidates.rotations.len() == row.len(),
        candidates.supports == supports@,
        candidates.angles[seed] == row@,
        candidates.radius == radius,
    ensures
        near.0@ == candidates.inliers(seed),
        near.1@ == candidates.angles_at(seed, near.0@),
        near.2@ == candidates.supports_at(near.0@),
{
    let ghost p = candidates.is_near(seed);
    let mut inliers: Vec<usize> = Vec::new();
    let mut angles: Vec<Scalar> = Vec::new();
    let mut weights: Vec<usize> = Vec::new();
    let mut k: usize = 0;
    while k < row.len()
        invariant
            k <= row.len(),
            row.len() == supports.len(),
            candidates.supports == supports@,
            candidates.angles[seed] == row@,
            candidates.radius == radius,
            p == candidates.is_near(seed),
            inliers@ == indices_where(k as nat, p),
            angles@ == candidates.angles_at(seed, inliers@),
            weights@ == candidates.supports_at(inliers@),
        decreases row.len() - k,
    {
        if row[k].le(radius) {
            inliers.push(k);
            angles.push(row[k]);
            weights.push(supports[k]);
            assert(angles@ =~= candidates.angles_at(seed, inliers@));
            assert(weights@ =~= candidates.supports_at(inliers@));
        }
        k += 1;
    }
    (inliers, angles, weights)
}

fn sum_supports(indices: &Vec<usize>, supports: &Vec<usize>, Ghost(candidates): Ghost<CandidateModel>) -> (sum:
    usize)
    requires
        candidates.supports == supports@,
        sum_of(supports@) <= usize::MAX,
        forall|k: int| 0 <= k < indices.len() ==> (#[trigger] indices[k]) < supports.len(),
        forall|i: int, j: int| 0 <= i < j < indices.len() ==> indices[i] < indices[j],
    ensures
        sum == candidates.support_of(indices@),
{
    let mut sum: usize = 0;
    let mut k: usize = 0;
    while k < indices.len()
        invariant
            k <= indices.len(),
            candidates.supports == supports@,
            sum_of(supports@) <= usize::MAX,
            forall|k: int| 0 <= k < indices.len() ==> (#[trigger] indices[k]) < supports.len(),
            forall|i: int, j: int| 0 <= i < j < indices.len() ==> indices[i] < indices[j],
            sum == candidates.support_of(indices@.take(k as int)),
        decreases indices.len() - k,
    {
        proof {
            let longer = indices@.take(k + 1);
            assert(longer.drop_last() =~= indices@.take(k as int));
            assert(longer.last() == indices[k as int]);
            assert forall|m: int| 0 <= m < longer.len() implies (#[trigger] longer[m])
                < candidates.supports.len() by {
                assert(longer[m] == indices[m]);
            }
            assert forall|i: int, j: int| 0 <= i < j < longer.len() implies longer[i] < longer[j] by {
                assert(indices[i] < indices[j]);
            }
            lemma_support_bound(candidates, longer);
        }
        sum = sum + supports[indices[k]];
        k += 1;
    }
    proof {
        lemma_take_all(indices@);
    }
    sum
}

/// The seed with the strongest consensus and the candidates within its radius.
fn strongest_rotation_consensus<C, A, Z, T, D>(
    angles: &Vec<Vec<Scalar>>,
    supports: &Vec<usize>,
    radius: Scalar,
    numerics: &OverlapNumerics<C, A, Z, T, D>,
    Ghost(candidates): Ghost<CandidateModel>,
) -> (found: (usize, Vec<usize>, Ghost<Seq<Scalar>>)) where
    C: Fn(&RotationChain) -> Quaternion,
    A: Fn(&Quaternion, &Quaternion) -> Scalar,
    Z: Fn(&Vec<Scalar>, &Vec<usize>) -> Scalar,
    T: Fn(Scalar) -> Scalar,
    D: Fn(Scalar) -> Scalar,
    requires
        numerics.callable(),
        angles.len() == supports.len(),
        candidates.rotations.len() == angles.len(),
        candidates.supports == supports@,
        candidates.radius == radius,
        candidates.angles.len() == angles.len(),
        forall|i: int| 0 <= i < angles.len() ==> (#[trigger] candidates.angles[i]) == angles[i]@,
        forall|i: int| 0 <= i < angles.len() ==> (#[trigger] angles[i]).len() == supports.len(),
        sum_of(supports@) <= usize::MAX,
    ensures
        found.2@.len() == angles.len(),
        forall|i: int|
            0 <= i < angles.len() ==> numerics.weighs(
                candidates.angles_at(i, candidates.inliers(i)),
                candidates.supports_at(candidates.inliers(i)),
                #[trigger] found.2@[i],
            ),
        found.0 == best_seed(candidates, found.2@, angles.len() as nat).seed,
        angles.len() > 0 ==> found.0 < angles.len(),
        found.1@ == best_seed(candidates, found.2@, angles.len() as nat).inliers,
{
    let ghost mut residuals: Seq<Scalar> = Seq::empty();
    let mut best: usize = 0;
    let mut best_inliers: Vec<usize> = Vec::new();
    let mut best_support: usize = 0;
    let mut best_residual = Scalar::infinity();
    let mut seed: usize = 0;
    while seed < angles.len()
        invariant
            seed <= angles.len(),
            numerics.callable(),
            angles.len() == supports.len(),
            candidates.rotations.len() == angles.len(),
            candidates.supports == supports@,
            candidates.radius == radius,
            candidates.angles.len() == angles.len(),
            forall|i: int| 0 <= i < angles.len() ==> (#[trigger] candidates.angles[i])
                == angles[i]@,
            forall|i: int| 0 <= i < angles.len() ==> (#[trigger] angles[i]).len() == supports.len(),
            sum_of(supports@) <= usize::MAX,
            residuals.len() == seed,
            forall|i: int|
                0 <= i < seed ==> numerics.weighs(
                    candidates.angles_at(i, candidates.inliers(i)),
                    candidates.supports_at(candidates.inliers(i)),
                    #[trigger] residuals[i],
                ),
            best == best_seed(candidates, residuals, seed as nat).seed,
            best <= seed,
            seed > 0 ==> best < seed,
            best_inliers@ == best_seed(candidates, residuals, seed as nat).inliers,
            best_support == best_seed(candidates, residuals, seed as nat).support,
            best_residual == best_seed(candidates, residuals, seed as nat).residual,
        decreases angles.len() - seed,
    {
        assert(candidates.angles[seed as int] == angles[seed as int]@);
        let (inliers, near_angles, near_weights) = collect_near(
            &angles[seed],
            supports,
            radius,
            Ghost(candidates),
            Ghost(seed as int),
        );
        proof {
            lemma_indices_where(supports.len() as nat, candidates.is_near(seed as int));
        }
        let support: usize = sum_supports(&inliers, supports, Ghost(candidates));
        let residual = (numerics.residual)(&near_angles, &near_weights);
        assert(numerics.weighs(near_angles@, near_weights@, residual));
        proof {
            let before = residuals;
            residuals = residuals.push(residual);
            lemma_seed_prefix(candidates, before, residuals, seed as nat);
        }
        let better: bool = support > best_support || (support == best_support && residual.lt(
            best_residual,
        )) || (support == best_support && residual.le(best_residual) && best_residual.le(residual)
            && seed < best);
        if better {
            best = seed;
            best_inliers = inliers;
            best_support = support;
            best_residual = residual;
        }
        seed += 1;
    }
    (best, best_inliers, Ghost(residuals))
}

proof fn lemma_seed_prefix(
    candidates: CandidateModel,
    shorter: Seq<Scalar>,
    longer: Seq<Scalar>,
    n: nat,
)
    requires
        n <= shorter.len() <= longer.len(),
        forall|i: int| 0 <= i < shorter.len() ==> #[trigger] longer[i] == shorter[i],
    ensures
        best_seed(candidates, longer, n) == best_seed(candidates, shorter, n),
    decreases n,
{
    if n > 0 {
        lemma_seed_prefix(candidates, shorter, longer, (n - 1) as nat);
        assert(longer[n - 1] == shorter[n - 1]);
    }
}

/// What the strongest consensus leads to.
pub open spec fn is_overlap_verdict<C, A, Z, T, D>(
    source: LocalSubmap,
    target: LocalSubmap,
    config: SubmapOverlapConfig,
    candidates: CandidateModel,
    best: BestSeed,
    degrees: Seq<Scalar>,
    numerics: OverlapNumerics<C, A, Z, T, D>,
    result: Result<SubmapOverlapEvidence, SubmapOverlapError>,
) -> bool where
    C: Fn(&RotationChain) -> Quaternion,
    A: Fn(&Quaternion, &Quaternion) -> Scalar,
    Z: Fn(&Vec<Scalar>, &Vec<usize>) -> Scalar,
    T: Fn(Scalar) -> Scalar,
    D: Fn(Scalar) -> Scalar,
{
    let required = if config.min_rotation_consensus_candidates == 0 {
        1
    } else {
        config.min_rotation_consensus_candidates
    };
    if best.inliers.len() < required {
        result == Err::<SubmapOverlapEvidence, _>(
            SubmapOverlapError::InsufficientRotationConsensus {
                required,
                found: best.inliers.len() as usize,
            },
        )
    } else {
        &&& degrees.len() == best.inliers.len()
        &&& forall|k: int|
            0 <= k < degrees.len() ==> call_ensures(
                numerics.degrees,
                (candidates.angles[best.seed][best.inliers[k] as int],),
                #[trigger] degrees[k],
            )
        &&& result matches Ok(evidence) && {
            &&& are_mutual_matches(
                evidence.point_matches@,
                source.landmarks@,
                target.landmarks@,
                if config.min_shared_observations_per_landmark == 0 {
                    1
                } else {
                    config.min_shared_observations_per_landmark as int
                },
            )
            &&& evidence.target_from_source_rotation == candidates.rotations[best.seed]
            &&& evidence.rotation_candidate_count == candidates.rotations.len()
            &&& evidence.rotation_consensus_count == best.inliers.len()
            &&& evidence.rotation_consensus_inlier_support == candidates.support_of(best.inliers)
            &&& evidence.max_rotation_disagreement_deg == largest(degrees)
        }
    }
}

/// `result` is the overlap evidence of two submaps.
pub open spec fn is_overlap<C, A, Z, T, D>(
    source: LocalSubmap,
    target: LocalSubmap,
    pair_rotations: Seq<PairRotationEvidence>,
    config: SubmapOverlapConfig,
    numerics: OverlapNumerics<C, A, Z, T, D>,
    result: Result<SubmapOverlapEvidence, SubmapOverlapError>,
) -> bool where
    C: Fn(&RotationChain) -> Quaternion,
    A: Fn(&Quaternion, &Quaternion) -> Scalar,
    Z: Fn(&Vec<Scalar>, &Vec<usize>) -> Scalar,
    T: Fn(Scalar) -> Scalar,
    D: Fn(Scalar) -> Scalar,
{
    let chains = rotation_chains(source.frames@, target.frames@, pair_rotations);
    if chains.len() == 0 {
        result == Err::<SubmapOverlapEvidence, _>(SubmapOverlapError::NoRotationCandidates)
    } else {
        exists|candidates: CandidateModel, residuals: Seq<Scalar>, degrees: Seq<Scalar>|
            {
                &&& #[trigger] are_candidates_of(
                    candidates,
                    residuals,
                    chains,
                    config.max_rotation_disagreement_deg,
                    numerics,
                )
                &&& #[trigger] is_overlap_verdict(
                    source,
                    target,
                    config,
                    candidates,
                    best_seed(candidates, residuals, chains.len()),
                    degrees,
                    numerics,
                    result,
                )
            }
    }
}

/// Collects the landmark matches and the rotation consensus of two submaps.
pub fn collect_submap_overlap_evidence<C, A, Z, T, D>(
    source: &LocalSubmap,
    target: &LocalSubmap,
    pair_rotations: &Vec<PairRotationEvidence>,
    config: &SubmapOverlapConfig,
    numerics: &OverlapNumerics<C, A, Z, T, D>,
) -> (result: Result<SubmapOverlapEvidence, SubmapOverlapError>) where
    C: Fn(&RotationChain) -> Quaternion,
    A: Fn(&Quaternion, &Quaternion) -> Scalar,
    Z: Fn(&Vec<Scalar>, &Vec<usize>) -> Scalar,
    T: Fn(Scalar) -> Scalar,
    D: Fn(Scalar) -> Scalar,
    requires
        numerics.callable(),
        total_support(rotation_chains(source.frames@, target.frames@, pair_rotations@))
            <= usize::MAX,
    ensures
        is_overlap(*source, *target, pair_rotations@, *config, *numerics, result),
{
    let point_matches = shared_landmark_point_matches(
        source,
        target,
        config.min_shared_observations_per_landmark,
    );
    let chains = gauge_rotation_candidates(source, target, pair_rotations);
    if chains.len() == 0 {
        return Err(SubmapOverlapError::NoRotationCandidates);
    }
    let count: usize = chains.len();
    let radius = (numerics.radius)(config.max_rotation_disagreement_deg);
    let mut rotations: Vec<Quaternion> = Vec::new();
    let mut supports: Vec<usize> = Vec::new();
    let mut i: usize = 0;
    while i < count
        invariant
            i <= count,
            count == chains.len(),
            numerics.callable(),
            rotations.len() == i,
            supports.len() == i,
            forall|k: int|
                0 <= k < i ==> call_ensures(
                    numerics.compose,
                    (&chains[k],),
                    #[trigger] rotations[k],
                ),
            forall|k: int| 0 <= k < i ==> #[trigger] supports[k] == chains[k].inlier_count,
        decreases count - i,
    {
        let rotation = (numerics.compose)(&chains[i]);
        rotations.push(rotation);
        supports.push(chains[i].inlier_count);
        i += 1;
    }
    let mut angles: Vec<Vec<Scalar>> = Vec::new();
    let mut a: usize = 0;
    while a < count
        invariant
            a <= count,
            count == rotations.len(),
            numerics.callable(),
            angles.len() == a,
            forall|k: int| 0 <= k < a ==> (#[trigger] angles[k]).len() == count,
            forall|k: int, l: int|
                0 <= k < a && 0 <= l < count ==> call_ensures(
                    numerics.angle,
                    (&rotations[k], &rotations[l]),
                    #[trigger] angles[k][l],
                ),
        decreases count - a,
    {
        let mut row: Vec<Scalar> = Vec::new();
        let mut b: usize = 0;
        while b < count
            invariant
                b <= count,
                a < count,
                count == rotations.len(),
                numerics.callable(),
                row.len() == b,
                forall|l: int|
                    0 <= l < b ==> call_ensures(
                        numerics.angle,
                        (&rotations[a as int], &rotations[l]),
                        #[trigger] row[l],
                    ),
            decreases count - b,
        {
            let angle = (numerics.angle)(&rotations[a], &rotations[b]);
            row.push(angle);
            b += 1;
        }
        angles.push(row);
        a += 1;
    }
    let ghost candidates = CandidateModel {
        rotations: rotations@,
        supports: supports@,
        angles: angles@.map_values(|row: Vec<Scalar>| row@),
        radius,
    };
    proof {
        assert(supports@ =~= chains@.map_values(|chain: RotationChain| chain.inlier_count));
        lemma_total_support(chains@);
    }
    let (winner, consensus, Ghost(residuals)) = strongest_rotation_consensus(
        &angles,
        &supports,
        radius,
        numerics,
        Ghost(candidates),
    );
    let ghost best = best_seed(candidates, residuals, count as nat);
    assert(are_candidates_of(
        candidates,
        residuals,
        chains@,
        config.max_rotation_disagreement_deg,
        *numerics,
    )) by {
        assert forall|k: int, l: int| 0 <= k < count && 0 <= l < count implies call_ensures(
            numerics.angle,
            (&candidates.rotations[k], &candidates.rotations[l]),
            #[trigger] candidates.angles[k][l],
        ) by {
            assert(candidates.angles[k][l] == angles[k][l]);
        }
    }
    let required: usize = if config.min_rotation_consensus_candidates == 0 {
        1
    } else {
        config.min_rotation_consensus_candidates
    };
    if consensus.len() < required {
        let error = SubmapOverlapError::InsufficientRotationConsensus {
            required,
            found: consensus.len(),
        };
        assert(is_overlap_verdict(
            *source,
            *target,
            *config,
            candidates,
            best,
            Seq::empty(),
            *numerics,
            Err::<SubmapOverlapEvidence, _>(error),
        ));
        return Err(error);
    }
    proof {
        lemma_best_seed_inliers(candidates, residuals, count as nat);
        assert(is_index_list(consensus@, count as int));
    }
    let support: usize = sum_supports(&consensus, &supports, Ghost(candidates));
    let row = &angles[winner];
    let mut degrees: Vec<Scalar> = Vec::new();
    let mut spread = Scalar::zero();
    let mut k: usize = 0;
    assert(degrees@ =~= Seq::<Scalar>::empty());
    while k < consensus.len()
        invariant
            k <= consensus.len(),
            numerics.callable(),
            row.len() == count,
            forall|m: int| 0 <= m < consensus.len() ==> (#[trigger] consensus[m]) < count,
            degrees.len() == k,
            forall|m: int|
                0 <= m < k ==> call_ensures(
                    numerics.degrees,
                    (row[consensus[m] as int],),
                    #[trigger] degrees[m],
                ),
            spread == largest(degrees@),
        decreases consensus.len() - k,
    {
        let angle = (numerics.degrees)(row[consensus[k]]);
        let ghost before = degrees@;
        degrees.push(angle);
        assert(degrees@.drop_last() =~= before);
        if spread.lt(angle) {
            spread = angle;
        }
        k += 1;
    }
    let result: Result<SubmapOverlapEvidence, SubmapOverlapError> = Ok(
        SubmapOverlapEvidence {
            point_matches,
            target_from_source_rotation: rotations[winner],
            rotation_candidate_count: count,
            rotation_consensus_count: consensus.len(),
            rotation_consensus_inlier_support: support,
            max_rotation_disagreement_deg: spread,
        },
    );
    assert(is_overlap_verdict(
        *source,
        *target,
        *config,
        candidates,
        best,
        degrees@,
        *numerics,
        result,
    ));
    result
}

/// An increasing list of indices below `n`.
spec fn is_index_list(list: Seq<usize>, n: int) -> bool {
    &&& forall|k: int| 0 <= k < list.len() ==> (#[trigger] list[k]) < n
    &&& forall|i: int, j: int| 0 <= i < j < list.len() ==> list[i] < list[j]
}

proof fn lemma_best_seed_inliers(candidates: CandidateModel, residuals: Seq<Scalar>, n: nat)
    requires
        candidates.rotations.len() <= usize::MAX,
    ensures
        is_index_list(
            best_seed(candidates, residuals, n).inliers,
            candidates.rotations.len() as int,
        ),
    decreases n,
{
    if n > 0 {
        lemma_best_seed_inliers(candidates, residuals, (n - 1) as nat);
        let near = candidates.inliers(n - 1);
        lemma_indices_where(candidates.rotations.len(), candidates.is_near(n - 1));
        assert(is_index_list(near, candidates.rotations.len() as int));
    }
}

/// Which side of a seam is the less consistent one.
#[derive(Clone, Copy, Debug, PartialEq, Eq, Structural)]
pub enum SeamDriftSide {
    Source,
    Target,
}

/// How the two submaps of a seam account for their shared motion. The change factors say
/// how much each side's own step size varies across the shared frames; a ratio close to
/// one means that both sides agree on the shape of the motion, whatever that is.
#[derive(Clone, Copy, Debug, PartialEq, Eq, Structural)]
pub struct SeamStepShapeDiagnostic {
    pub shared_frames: usize,
    pub source_change_factor: Scalar,
    pub target_change_factor: Scalar,
    pub disagreement_ratio: Scalar,
    pub defective_side: SeamDriftSide,
}

/// Change factors up to this one, 1e-9, say nothing.
pub const MIN_CHANGE_FACTOR_BITS: u64 = 0x3E11_2E0B_E826_D695;

/// The last match of a frame.
pub open spec fn match_of(matches: Seq<SubmapPointMatch>, id: u64) -> Option<SubmapPointMatch>
    decreases matches.len(),
{
    if matches.len() == 0 {
        None
    } else if matches.last().source_landmark_id == id {
        Some(matches.last())
    } else {
        match_of(matches.drop_last(), id)
    }
}

/// The frames of some matches, in increasing order.
pub open spec fn matched_frames(matches: Seq<SubmapPointMatch>) -> Seq<u64> {
    sorted_set_of(matches.map_values(|m: SubmapPointMatch| m.source_landmark_id))
}

/// The source camera centres of the shared frames, in temporal order.
pub open spec fn source_centers(matches: Seq<SubmapPointMatch>) -> Seq<Point3> {
    matched_frames(matches).map_values(|id: u64| match_of(matches, id)->0.source_point)
}

/// The target camera centres of the shared frames, in temporal order.
pub open spec fn target_centers(matches: Seq<SubmapPointMatch>) -> Seq<Point3> {
    matched_frames(matches).map_values(|id: u64| match_of(matches, id)->0.target_point)
}

/// What two change factors say of a seam; `quotient` is that of the larger and the
/// smaller one.
pub open spec fn shape_verdict(
    shared_frames: usize,
    source_factor: Scalar,
    target_factor: Scalar,
    quotient: Scalar,
) -> Option<SeamStepShapeDiagnostic> {
    let floor = Scalar { bits: MIN_CHANGE_FACTOR_BITS };
    if source_factor.le(floor) && target_factor.le(floor) {
        None
    } else {
        let source_worse = target_factor.le(source_factor);
        let larger = if source_worse {
            source_factor
        } else {
            target_factor
        };
        let smaller = if source_worse {
            target_factor
        } else {
            source_factor
        };
        Some(
            SeamStepShapeDiagnostic {
                shared_frames,
                source_change_factor: source_factor,
                target_change_factor: target_factor,
                disagreement_ratio: if floor.lt(smaller) {
                    quotient
                } else if floor.lt(larger) {
                    Scalar::infinity()
                } else {
                    Scalar::one()
                },
                defective_side: if source_worse {
                    SeamDriftSide::Source
                } else {
                    SeamDriftSide::Target
                },
            },
        )
    }
}

/// The larger and the smaller of two change factors, as [`shape_verdict`] takes them.
pub open spec fn ordered_factors(source_factor: Scalar, target_factor: Scalar) -> (Scalar, Scalar) {
    if target_factor.le(source_factor) {
        (source_factor, target_factor)
    } else {
        (target_factor, source_factor)
    }
}

/// `found` is the diagnostic of a seam with these shared camera centres.
pub open spec fn is_seam_shape<K, V>(
    matches: Seq<SubmapPointMatch>,
    window_count: usize,
    drift: K,
    divide: V,
    found: Option<SeamStepShapeDiagnostic>,
) -> bool where K: Fn(&Vec<Point3>, usize) -> Scalar, V: Fn(Scalar, Scalar) -> Scalar {
    let needed = if window_count == 0 {
        2
    } else {
        2 * window_count
    };
    if matched_frames(matches).len() < needed {
        found is None
    } else {
        exists|
            source_list: Vec<Point3>,
            target_list: Vec<Point3>,
            source_factor: Scalar,
            target_factor: Scalar,
            quotient: Scalar,
        |
            {
                &&& source_list@ == source_centers(matches)
                &&& target_list@ == target_centers(matches)
                &&& #[trigger] call_ensures(drift, (&source_list, window_count), source_factor)
                &&& #[trigger] call_ensures(drift, (&target_list, window_count), target_factor)
                &&& #[trigger] call_ensures(
                    divide,
                    ordered_factors(source_factor, target_factor),
                    quotient,
                )
                &&& found == shape_verdict(
                    matched_frames(matches).len() as usize,
                    source_factor,
                    target_factor,
                    quotient,
                )
            }
    }
}

fn index_matches(matches: &Vec<SubmapPointMatch>) -> (index: BTreeMap<u64, SubmapPointMatch>)
    ensures
        forall|id: u64|
            #![trigger index@.contains_key(id)]
            match_of(matches@, id) == if index@.contains_key(id) {
                Some(index@[id])
            } else {
                None
            },
{
    let mut index: BTreeMap<u64, SubmapPointMatch> = BTreeMap::new();
    let mut i: usize = 0;
    while i < matches.len()
        invariant
            i <= matches.len(),
            forall|id: u64|
                #![trigger index@.contains_key(id)]
                match_of(matches@.take(i as int), id) == if index@.contains_key(id) {
                    Some(index@[id])
                } else {
                    None
                },
        decreases matches.len() - i,
    {
        let ghost before = index@;
        index.insert(matches[i].source_landmark_id, matches[i]);
        proof {
            assert(matches@.take(i + 1).drop_last() =~= matches@.take(i as int));
            assert forall|id: u64|
                #![trigger index@.contains_key(id)]
                match_of(matches@.take(i + 1), id) == if index@.contains_key(id) {
                    Some(index@[id])
                } else {
                    None
                } by {
                assert(before.contains_key(id) || !before.contains_key(id));
            }
        }
        i += 1;
    }
    proof {
        lemma_take_all(matches@);
    }
    index
}

proof fn lemma_listed_has_match(matches: Seq<SubmapPointMatch>, id: u64)
    requires
        matches.map_values(|m: SubmapPointMatch| m.source_landmark_id).contains(id),
    ensures
        match_of(matches, id) is Some,
    decreases matches.len(),
{
    let ids = matches.map_values(|m: SubmapPointMatch| m.source_landmark_id);
    let k = ids.index_of(id);
    if matches.last().source_landmark_id != id {
        let rest = matches.drop_last();
        let rest_ids = rest.map_values(|m: SubmapPointMatch| m.source_landmark_id);
        assert(rest_ids[k] == id);
        lemma_listed_has_match(rest, id);
    }
}

/// Compares how two submaps account for the motion across their shared frames; nothing
/// where the shared frames do not fill `window_count` windows on both sides, or where
/// neither side's steps vary. `drift` measures how the step sizes along a path vary over
/// that many windows, `divide` is the quotient of two numbers.
pub fn seam_step_shape_diagnostic<K, V>(
    source: &LocalSubmap,
    target: &LocalSubmap,
    window_count: usize,
    drift: K,
    divide: V,
) -> (found: Option<SeamStepShapeDiagnostic>) where
    K: Fn(&Vec<Point3>, usize) -> Scalar,
    V: Fn(Scalar, Scalar) -> Scalar,

    requires
        2 * window_count <= usize::MAX,
        forall|path: Vec<Point3>, windows: usize| call_requires(drift, (&path, windows)),
        forall|dividend: Scalar, divisor: Scalar| call_requires(divide, (dividend, divisor)),
    ensures
        is_seam_shape(
            shared_centers(source.frames@, target.frames@),
            window_count,
            drift,
            divide,
            found,
        ),
{
    let matches = shared_camera_center_matches(source, target);
    let index = index_matches(&matches);
    let mut ids: Vec<u64> = Vec::new();
    let mut i: usize = 0;
    while i < matches.len()
        invariant
            i <= matches.len(),
            ids.len() == i,
            forall|k: int| 0 <= k < i ==> #[trigger] ids[k] == matches[k].source_landmark_id,
        decreases matches.len() - i,
    {
        ids.push(matches[i].source_landmark_id);
        i += 1;
    }
    assert(ids@ =~= matches@.map_values(|m: SubmapPointMatch| m.source_landmark_id));
    let frames = sorted_set(&ids);
    let needed: usize = if window_count == 0 { 2 } else { 2 * window_count };
    if frames.len() < needed {
        return None;
    }
    let mut source_list: Vec<Point3> = Vec::new();
    let mut target_list: Vec<Point3> = Vec::new();
    let mut k: usize = 0;
    while k < frames.len()
        invariant
            k <= frames.len(),
            frames@ == matched_frames(matches@),
            ids@ == matches@.map_values(|m: SubmapPointMatch| m.source_landmark_id),
            forall|id: u64| frames@.contains(id) <==> ids@.contains(id),
            forall|id: u64|
                #![trigger index@.contains_key(id)]
                match_of(matches@, id) == if index@.contains_key(id) {
                    Some(index@[id])
                } else {
                    None
                },
            source_list.len() == k,
            target_list.len() == k,
            forall|j: int|
                0 <= j < k ==> #[trigger] source_list[j] == match_of(
                    matches@,
                    frames[j],
                )->0.source_point,
            forall|j: int|
                0 <= j < k ==> #[trigger] target_list[j] == match_of(
                    matches@,
                    frames[j],
                )->0.target_point,
        decreases frames.len() - k,
    {
        let id: u64 = frames[k];
        proof {
            assert(frames@.contains(frames[k as int]));
            lemma_listed_has_match(matches@, id);
            assert(index@.contains_key(id));
        }
        if let Some(found) = index.get(&id) {
            source_list.push(found.source_point);
            target_list.push(found.target_point);
        }
        k += 1;
    }
    assert(source_list@ =~= source_centers(matches@));
    assert(target_list@ =~= target_centers(matches@));
    let source_factor = drift(&source_list, window_count);
    let target_factor = drift(&target_list, window_count);
    let source_worse: bool = target_factor.le(source_factor);
    let larger = if source_worse { source_factor } else { target_factor };
    let smaller = if source_worse { target_factor } else { source_factor };
    let quotient = divide(larger, smaller);
    assert(call_ensures(divide, ordered_factors(source_factor, target_factor), quotient));
    let floor = Scalar { bits: MIN_CHANGE_FACTOR_BITS };
    if source_factor.le(floor) && target_factor.le(floor) {
        return None;
    }
    Some(
        SeamStepShapeDiagnostic {
            shared_frames: frames.len(),
            source_change_factor: source_factor,
            target_change_factor: target_factor,
            disagreement_ratio: if floor.lt(smaller) {
                quotient
            } else if floor.lt(larger) {
                Scalar::infinity()
            } else {
                Scalar::one()
            },
            defective_side: if source_worse {
                SeamDriftSide::Source
            } else {
                SeamDriftSide::Target
            },
        },
    )
}

/// The observation `o` of the landmark at `l` lies at the given keypoint.
pub open spec fn sees(
    landmarks: Seq<LocalSubmapLandmark>,
    l: int,
    o: int,
    frame_id: u64,
    keypoint: usize,
) -> bool {
    &&& 0 <= l < landmarks.len()
    &&& 0 <= o < landmarks[l].observations@.len()
    &&& landmarks[l].observations@[o].source_frame_id == frame_id
    &&& landmarks[l].observations@[o].keypoint_index == keypoint
}

/// Of all observations exactly one lies at the keypoint, and it is the landmark's.
pub open spec fn alone_sees(
    landmarks: Seq<LocalSubmapLandmark>,
    id: u64,
    frame_id: u64,
    keypoint: usize,
) -> bool {
    exists|l: int, o: int|
        {
            &&& #[trigger] sees(landmarks, l, o, frame_id, keypoint)
            &&& landmarks[l].local_landmark_id == id
            &&& forall|other: int, p: int| #[trigger]
                sees(landmarks, other, p, frame_id, keypoint) ==> other == l && p == o
        }
}

/// The keypoints that two landmarks share: each sees it, and in its submap nothing else
/// does.
pub open spec fn shared_keypoints(
    source: Seq<LocalSubmapLandmark>,
    target: Seq<LocalSubmapLandmark>,
    source_id: u64,
    target_id: u64,
) -> Set<(u64, usize)> {
    Set::new(
        |place: (u64, usize)|
            alone_sees(source, source_id, place.0, place.1) && alone_sees(
                target,
                target_id,
                place.0,
                place.1,
            ),
    )
}

/// Where each sighting comes from.
proof fn lemma_sighting_places(landmarks: Seq<LocalSubmapLandmark>) -> (places: Seq<(int, int)>)
    ensures
        places.len() == sightings(landmarks).len(),
        forall|i: int|
            0 <= i < places.len() ==> ({
                let place = #[trigger] places[i];
                let sighting = sightings(landmarks)[i];
                &&& sees(landmarks, place.0, place.1, sighting.frame_id, sighting.keypoint)
                &&& landmarks[place.0].local_landmark_id == sighting.landmark_id
            }),
        forall|i: int, j: int|
            0 <= i < j < places.len() ==> #[trigger] places[i] != #[trigger] places[j],
        forall|l: int, o: int, frame_id: u64, keypoint: usize| #[trigger]
            sees(landmarks, l, o, frame_id, keypoint) ==> places.contains((l, o)),
    decreases landmarks.len(),
{
    if landmarks.len() == 0 {
        Seq::empty()
    } else {
        let n = landmarks.len() - 1;
        let rest = landmarks.drop_last();
        let before = lemma_sighting_places(rest);
        let last = landmarks.last().observations@;
        let more = Seq::new(last.len(), |o: int| (n, o));
        let places = before + more;
        let all = sightings(landmarks);
        assert forall|i: int| 0 <= i < places.len() implies ({
            let place = #[trigger] places[i];
            &&& sees(landmarks, place.0, place.1, all[i].frame_id, all[i].keypoint)
            &&& landmarks[place.0].local_landmark_id == all[i].landmark_id
        }) by {
            if i < before.len() {
                assert(places[i] == before[i]);
                assert(all[i] == sightings(rest)[i]);
            } else {
                assert(all[i] == landmark_sightings(landmarks.last())[i - before.len()]);
            }
        }
        assert forall|i: int, j: int| 0 <= i < j < places.len() implies #[trigger] places[i]
            != #[trigger] places[j] by {
            if i < before.len() {
                assert(places[i] == before[i]);
                if j < before.len() {
                    assert(places[j] == before[j]);
                }
            }
        }
        assert forall|l: int, o: int, frame_id: u64, keypoint: usize| #[trigger]
            sees(landmarks, l, o, frame_id, keypoint) implies places.contains((l, o)) by {
            if l < n {
                assert(sees(rest, l, o, frame_id, keypoint));
                assert(places[before.index_of((l, o))] == (l, o));
            } else {
                assert(places[before.len() + o] == (l, o));
            }
        }
        places
    }
}

proof fn lemma_owner_alone_sees(
    landmarks: Seq<LocalSubmapLandmark>,
    id: u64,
    frame_id: u64,
    keypoint: usize,
)
    ensures
        owner(sightings(landmarks), frame_id, keypoint) == Some(id) <==> alone_sees(
            landmarks,
            id,
            frame_id,
            keypoint,
        ),
{
    let all = sightings(landmarks);
    let p = is_at(frame_id, keypoint);
    let places = lemma_sighting_places(landmarks);
    let at = crate::sequences::lemma_filter_positions(all, p);
    let found = all.filter(p);
    if owner(all, frame_id, keypoint) == Some(id) {
        let i = at[0];
        let (l, o) = places[i];
        assert(p(all[i]));
        assert(sees(landmarks, l, o, frame_id, keypoint));
        assert forall|other: int, q: int| #[trigger]
            sees(landmarks, other, q, frame_id, keypoint) implies other == l && q == o by {
            let j = places.index_of((other, q));
            assert(places[j] == (other, q));
            assert(p(all[j]));
            assert(at.contains(j));
        }
    }
    if alone_sees(landmarks, id, frame_id, keypoint) {
        let (l, o) = choose|l: int, o: int|
            {
                &&& #[trigger] sees(landmarks, l, o, frame_id, keypoint)
                &&& landmarks[l].local_landmark_id == id
                &&& forall|other: int, q: int| #[trigger]
                    sees(landmarks, other, q, frame_id, keypoint) ==> other == l && q == o
            };
        let i = places.index_of((l, o));
        assert(places[i] == (l, o));
        assert(p(all[i]));
        assert(at.contains(i));
        assert forall|k: int| 0 <= k < at.len() implies #[trigger] at[k] == i by {
            assert(p(all[at[k]]));
            let place = places[at[k]];
            assert(sees(landmarks, place.0, place.1, frame_id, keypoint));
            if at[k] < i {
                assert(places[at[k]] != places[i]);
            } else if i < at[k] {
                assert(places[i] != places[at[k]]);
            }
        }
        if at.len() > 1 {
            assert(at[0] < at[1]);
        }
        assert(found[0] == all[at[0]]);
    }
}

/// The votes for a pair of landmarks are the keypoints that the two share. A keypoint that
/// several observations of one submap claim counts for none of them.
pub proof fn votes_are_shared_keypoints(
    source: Seq<LocalSubmapLandmark>,
    target: Seq<LocalSubmapLandmark>,
    source_id: u64,
    target_id: u64,
)
    ensures
        votes(clear_sightings(source), sightings(target), source_id, target_id)
            == shared_keypoints(source, target, source_id, target_id).len(),
{
    let all = sightings(source);
    let seen = sightings(target);
    let clear = clear_sightings(source);
    let p = votes_for(seen, source_id, target_id);
    let chosen = clear.filter(p);
    let first = crate::sequences::lemma_filter_positions(all, is_clear(all));
    let second = crate::sequences::lemma_filter_positions(clear, p);
    let keys = chosen.map_values(|sighting: Sighting| (sighting.frame_id, sighting.keypoint));
    let shared = shared_keypoints(source, target, source_id, target_id);
    assert forall|i: int| 0 <= i < chosen.len() implies #[trigger] shared.contains(keys[i]) by {
        let sighting = chosen[i];
        assert(p(clear[second[i]]));
        let k = first[second[i]];
        assert(all[k] == sighting);
        assert(is_clear(all)(all[k]));
        let q = is_at(sighting.frame_id, sighting.keypoint);
        let at = crate::sequences::lemma_filter_positions(all, q);
        assert(q(all[k]));
        assert(at.contains(k));
        assert(at[0] == k);
        assert(owner(all, sighting.frame_id, sighting.keypoint) == Some(source_id));
        lemma_owner_alone_sees(source, source_id, sighting.frame_id, sighting.keypoint);
        lemma_owner_alone_sees(target, target_id, sighting.frame_id, sighting.keypoint);
    }
    assert forall|place: (u64, usize)| #[trigger] shared.contains(place) implies keys.contains(
        place,
    ) by {
        lemma_owner_alone_sees(source, source_id, place.0, place.1);
        lemma_owner_alone_sees(target, target_id, place.0, place.1);
        let q = is_at(place.0, place.1);
        let at = crate::sequences::lemma_filter_positions(all, q);
        let k = at[0];
        assert(q(all[k]));
        assert(all[k].landmark_id == source_id);
        assert(is_clear(all)(all[k]));
        assert(first.contains(k));
        let j = first.index_of(k);
        assert(clear[j] == all[k]);
        assert(p(clear[j]));
        assert(second.contains(j));
        let i = second.index_of(j);
        assert(chosen[i] == all[k]);
        assert(keys[i] == place);
    }
    assert forall|i: int, j: int| 0 <= i < keys.len() && 0 <= j < keys.len() && i != j implies keys[i]
        != keys[j] by {
        let a = first[second[i]];
        let b = first[second[j]];
        assert(all[a] == chosen[i] && all[b] == chosen[j]);
        if i < j {
            assert(second[i] < second[j]);
        } else {
            assert(second[j] < second[i]);
        }
        assert(a != b);
        if keys[i] == keys[j] {
            let q = is_at(chosen[i].frame_id, chosen[i].keypoint);
            let at = crate::sequences::lemma_filter_positions(all, q);
            assert(is_clear(all)(all[a]));
            assert(q(all[a]) && q(all[b]));
            assert(at.contains(a) && at.contains(b));
        }
    }
    assert(keys.no_duplicates());
    keys.unique_seq_to_set();
    assert(keys.to_set() =~= shared) by {
        assert forall|place: (u64, usize)| keys.to_set().contains(place) <==> shared.contains(
            place,
        ) by {
            if keys.contains(place) {
                let i = keys.index_of(place);
                assert(shared.contains(keys[i]));
            }
        }
    }
}

/// A matched pair shares at least the required number of keypoints; its source landmark
/// shares no more with any other target landmark, nor its target landmark with any other
/// source landmark; where another shares as many, the smaller id is matched.
pub proof fn matched_pairs_share_the_most(
    matches: Seq<SubmapPointMatch>,
    source: Seq<LocalSubmapLandmark>,
    target: Seq<LocalSubmapLandmark>,
    threshold: int,
    k: int,
    other: u64,
)
    requires
        are_mutual_matches(matches, source, target, threshold),
        threshold > 0,
        0 <= k < matches.len(),
    ensures
        ({
            let source_id = matches[k].source_landmark_id;
            let target_id = matches[k].target_landmark_id;
            let count = shared_keypoints(source, target, source_id, target_id).len();
            let by_source = shared_keypoints(source, target, source_id, other).len();
            let by_target = shared_keypoints(source, target, other, target_id).len();
            &&& count >= threshold
            &&& by_source <= count
            &&& by_source == count ==> target_id <= other
            &&& by_target <= count
            &&& by_target == count ==> source_id <= other
        }),
{
    let source_id = matches[k].source_landmark_id;
    let target_id = matches[k].target_landmark_id;
    assert(is_mutual_best(
        clear_sightings(source),
        sightings(target),
        threshold,
        source_id,
        target_id,
    ));
    votes_are_shared_keypoints(source, target, source_id, target_id);
    votes_are_shared_keypoints(source, target, source_id, other);
    votes_are_shared_keypoints(source, target, other, target_id);
}

/// A pair of landmarks that share enough keypoints, and more than either shares with any
/// other, is matched; where another shares as many, the smaller id goes first.
pub proof fn best_pairs_are_matched(
    matches: Seq<SubmapPointMatch>,
    source: Seq<LocalSubmapLandmark>,
    target: Seq<LocalSubmapLandmark>,
    threshold: int,
    source_id: u64,
    target_id: u64,
) -> (k: int)
    requires
        are_mutual_matches(matches, source, target, threshold),
        threshold > 0,
        shared_keypoints(source, target, source_id, target_id).len() >= threshold,
        forall|other: u64|
            other != target_id ==> {
                let there = (#[trigger] shared_keypoints(source, target, source_id, other)).len();
                let here = shared_keypoints(source, target, source_id, target_id).len();
                there < here || (there == here && target_id < other)
            },
        forall|other: u64|
            other != source_id ==> {
                let there = (#[trigger] shared_keypoints(source, target, other, target_id)).len();
                let here = shared_keypoints(source, target, source_id, target_id).len();
                there < here || (there == here && source_id < other)
            },
    ensures
        0 <= k < matches.len(),
        matches[k].source_landmark_id == source_id,
        matches[k].target_landmark_id == target_id,
{
    let s = clear_sightings(source);
    let t = sightings(target);
    votes_are_shared_keypoints(source, target, source_id, target_id);
    assert forall|other: u64|
        other != target_id && (#[trigger] votes(s, t, source_id, other))
            >= threshold implies preferred(
        votes(s, t, source_id, target_id),
        target_id,
        votes(s, t, source_id, other),
        other,
    ) by {
        votes_are_shared_keypoints(source, target, source_id, other);
        assert(shared_keypoints(source, target, source_id, other).len() <= shared_keypoints(
            source,
            target,
            source_id,
            target_id,
        ).len());
    }
    assert forall|other: u64|
        other != source_id && (#[trigger] votes(s, t, other, target_id))
            >= threshold implies preferred(
        votes(s, t, source_id, target_id),
        source_id,
        votes(s, t, other, target_id),
        other,
    ) by {
        votes_are_shared_keypoints(source, target, other, target_id);
        assert(shared_keypoints(source, target, other, target_id).len() <= shared_keypoints(
            source,
            target,
            source_id,
            target_id,
        ).len());
    }
    assert(is_mutual_best(s, t, threshold, source_id, target_id));
    let k = choose|k: int| 0 <= k < matches.len() && is_match_of(
        #[trigger] matches[k],
        source_id,
        target_id,
    );
    k
}

/// Matches come by increasing source landmark, and their points are the positions of the
/// two landmarks: of several landmarks with one id the last counts.
pub proof fn matched_points_are_landmark_positions(
    matches: Seq<SubmapPointMatch>,
    source: Seq<LocalSubmapLandmark>,
    target: Seq<LocalSubmapLandmark>,
    threshold: int,
    k: int,
) -> (at: (int, int))
    requires
        are_mutual_matches(matches, source, target, threshold),
        0 <= k < matches.len(),
    ensures
        0 <= at.0 < source.len(),
        source[at.0].local_landmark_id == matches[k].source_landmark_id,
        source[at.0].position == matches[k].source_point,
        forall|later: int|
            at.0 < later < source.len() ==> (#[trigger] source[later]).local_landmark_id
                != matches[k].source_landmark_id,
        0 <= at.1 < target.len(),
        target[at.1].local_landmark_id == matches[k].target_landmark_id,
        target[at.1].position == matches[k].target_point,
        forall|later: int|
            at.1 < later < target.len() ==> (#[trigger] target[later]).local_landmark_id
                != matches[k].target_landmark_id,
        forall|j: int|
            0 <= j < k ==> (#[trigger] matches[j]).source_landmark_id
                < matches[k].source_landmark_id,
{
    let found = matches[k];
    (
        lemma_position_of(source, found.source_landmark_id),
        lemma_position_of(target, found.target_landmark_id),
    )
}

proof fn lemma_position_of(landmarks: Seq<LocalSubmapLandmark>, id: u64) -> (at: int)
    ensures
        position_of(landmarks, id) matches Some(position) ==> 0 <= at < landmarks.len()
            && landmarks[at].local_landmark_id == id && landmarks[at].position == position
            && forall|later: int|
            at < later < landmarks.len() ==> (#[trigger] landmarks[later]).local_landmark_id != id,
    decreases landmarks.len(),
{
    if landmarks.len() == 0 {
        0
    } else if landmarks.last().local_landmark_id == id {
        landmarks.len() - 1
    } else {
        let rest = landmarks.drop_last();
        let at = lemma_position_of(rest, id);
        if position_of(rest, id) is Some {
            assert forall|later: int| at < later < landmarks.len() implies (
            #[trigger] landmarks[later]).local_landmark_id != id by {
                if later < rest.len() {
                    assert(rest[later] == landmarks[later]);
                }
            }
        }
        at
    }
}

/// The entry of a key is the candidate with the larger count, and with equal counts the
/// one with the smaller id; the entries of other keys stay.
pub proof fn the_larger_count_stays(
    best: Map<u64, (u64, usize)>,
    key: u64,
    candidate: u64,
    count: usize,
    other: u64,
)
    ensures
        ({
            let after = updated_best(best, key, candidate, count);
            &&& after.contains_key(key)
            &&& after[key].1 >= count
            &&& after[key].1 == count ==> after[key].0 <= candidate
            &&& after[key] == (candidate, count) || (best.contains_key(key) && after[key]
                == best[key])
            &&& best.contains_key(key) ==> after[key].1 >= best[key].1
            &&& best.contains_key(key) && after[key].1 == best[key].1 ==> after[key].0
                <= best[key].0
            &&& other != key ==> (after.contains_key(other) == best.contains_key(other))
            &&& other != key && best.contains_key(other) ==> after[other] == best[other]
        }),
{
}

/// The frame found for an id has that id, and no later frame does; one is found wherever
/// there is one.
pub proof fn the_last_frame_counts(frames: Seq<LocalSubmapFrame>, id: u64) -> (at: int)
    ensures
        frame_of(frames, id) is Some <==> exists|k: int|
            0 <= k < frames.len() && (#[trigger] frames[k]).source_frame_id == id,
        frame_of(frames, id) matches Some(frame) ==> 0 <= at < frames.len() && frames[at] == frame
            && frame.source_frame_id == id && forall|later: int|
            at < later < frames.len() ==> (#[trigger] frames[later]).source_frame_id != id,
    decreases frames.len(),
{
    if frames.len() == 0 {
        0
    } else if frames.last().source_frame_id == id {
        assert(frames[frames.len() - 1].source_frame_id == id);
        frames.len() - 1
    } else {
        let rest = frames.drop_last();
        let at = the_last_frame_counts(rest, id);
        assert forall|k: int| 0 <= k < frames.len() implies (#[trigger] frames[k] == rest[k] || k
            == rest.len()) by {}
        if frame_of(rest, id) is Some {
            assert(rest[at] == frames[at]);
        }
        if exists|k: int| 0 <= k < frames.len() && (#[trigger] frames[k]).source_frame_id == id {
            let k = choose|k: int|
                0 <= k < frames.len() && (#[trigger] frames[k]).source_frame_id == id;
            assert(rest[k].source_frame_id == id);
        }
        at
    }
}

/// The shared camera centres: the source frames whose id a target frame has, in their
/// order, each with its own centre and that of the last such target frame.
pub proof fn shared_centers_pair_equal_frames(
    source: Seq<LocalSubmapFrame>,
    target: Seq<LocalSubmapFrame>,
) -> (at: Seq<int>)
    ensures
        lists_kept(
            at,
            source.len(),
            |s: int|
                exists|t: int|
                    0 <= t < target.len() && (#[trigger] target[t]).source_frame_id
                        == source[s].source_frame_id,
        ),
        shared_centers(source, target).len() == at.len(),
        forall|k: int|
            0 <= k < at.len() ==> ({
                let found = shared_centers(source, target)[k];
                let frame = source[#[trigger] at[k]];
                &&& found.source_landmark_id == frame.source_frame_id
                &&& found.target_landmark_id == frame.source_frame_id
                &&& found.source_point == frame.camera_center
                &&& exists|t: int|
                    0 <= t < target.len() && (#[trigger] target[t]).source_frame_id
                        == frame.source_frame_id && target[t].camera_center == found.target_point
                        && forall|later: int|
                        t < later < target.len() ==> (#[trigger] target[later]).source_frame_id
                            != frame.source_frame_id
            }),
    decreases source.len(),
{
    let kept = |s: int|
        exists|t: int|
            0 <= t < target.len() && (#[trigger] target[t]).source_frame_id
                == source[s].source_frame_id;
    if source.len() == 0 {
        Seq::empty()
    } else {
        let rest = source.drop_last();
        let kept_before = |s: int|
            exists|t: int|
                0 <= t < target.len() && (#[trigger] target[t]).source_frame_id
                    == rest[s].source_frame_id;
        let before = shared_centers_pair_equal_frames(rest, target);
        let id = source.last().source_frame_id;
        let place = the_last_frame_counts(target, id);
        assert forall|s: int| 0 <= s < rest.len() implies #[trigger] kept(s) == kept_before(s) by {
            assert(rest[s] == source[s]);
        }
        assert(lists_kept(before, rest.len(), kept));
        let n = rest.len() as int;
        crate::sequences::lemma_lists_one_more(before, rest.len(), kept);
        assert(kept(n) <==> frame_of(target, id) is Some);
        if frame_of(target, id) is Some {
            let at = before.push(n);
            assert(at.last() == n);
            assert forall|k: int| 0 <= k < before.len() implies source[before[k]]
                == rest[#[trigger] before[k]] by {}
            at
        } else {
            assert forall|k: int| 0 <= k < before.len() implies source[before[k]]
                == rest[#[trigger] before[k]] by {}
            before
        }
    }
}

/// A pair of images chains a source frame to a target frame along its rotation, or against
/// it.
pub open spec fn is_chain_of(
    chain: RotationChain,
    source: Seq<LocalSubmapFrame>,
    target: Seq<LocalSubmapFrame>,
    pair: PairRotationEvidence,
    inverted: bool,
) -> bool {
    let from = if inverted {
        pair.image_j
    } else {
        pair.image_i
    };
    let to = if inverted {
        pair.image_i
    } else {
        pair.image_j
    };
    &&& pair.image_i != pair.image_j
    &&& frame_of(source, from) matches Some(frame) && frame.pose == chain.source_pose
    &&& frame_of(target, to) matches Some(frame) && frame.pose == chain.target_pose
    &&& chain.pair_rotation == pair.image_j_from_i
    &&& chain.inverted == inverted
    &&& chain.inlier_count == pair.inlier_count
}

/// The one link comes before the other: by pair, and along the rotation before against it.
pub open spec fn comes_before(left: (int, bool), right: (int, bool)) -> bool {
    left.0 < right.0 || (left.0 == right.0 && !left.1 && right.1)
}

/// The rotation chains are those of the pairs of different images, one of which is
/// registered in the source and the other in the target, in the order of the pairs; a pair
/// that connects both ways gives two.
pub proof fn chains_follow_pairs(
    source: Seq<LocalSubmapFrame>,
    target: Seq<LocalSubmapFrame>,
    evidence: Seq<PairRotationEvidence>,
) -> (links: Seq<(int, bool)>)
    ensures
        links.len() == rotation_chains(source, target, evidence).len(),
        forall|k: int|
            0 <= k < links.len() ==> 0 <= (#[trigger] links[k]).0 < evidence.len() && is_chain_of(
                rotation_chains(source, target, evidence)[k],
                source,
                target,
                evidence[links[k].0],
                links[k].1,
            ),
        forall|k: int, l: int|
            0 <= k < l < links.len() ==> comes_before(#[trigger] links[k], #[trigger] links[l]),
        forall|e: int, inverted: bool, chain: RotationChain|
            0 <= e < evidence.len() && #[trigger] is_chain_of(
                chain,
                source,
                target,
                evidence[e],
                inverted,
            ) ==> links.contains((e, inverted)),
    decreases evidence.len(),
{
    if evidence.len() == 0 {
        Seq::empty()
    } else {
        let n = evidence.len() - 1;
        let rest = evidence.drop_last();
        let before = chains_follow_pairs(source, target, rest);
        let pair = evidence.last();
        let found = pair_chains(source, target, pair);
        let more = Seq::new(found.len(), |k: int| (n, found[k].inverted));
        let links = before + more;
        let all = rotation_chains(source, target, evidence);
        assert forall|k: int| 0 <= k < links.len() implies 0 <= (#[trigger] links[k]).0
            < evidence.len() && is_chain_of(
            all[k],
            source,
            target,
            evidence[links[k].0],
            links[k].1,
        ) by {
            if k < before.len() {
                assert(links[k] == before[k]);
                assert(all[k] == rotation_chains(source, target, rest)[k]);
                assert(rest[before[k].0] == evidence[before[k].0]);
            } else {
                assert(all[k] == found[k - before.len()]);
            }
        }
        assert forall|k: int, l: int| 0 <= k < l < links.len() implies comes_before(
            #[trigger] links[k],
            #[trigger] links[l],
        ) by {
            if l < before.len() {
                assert(comes_before(before[k], before[l]));
            } else if k < before.len() {
                assert(links[k] == before[k]);
            } else {
                assert(links[k] == more[k - before.len()]);
                assert(links[l] == more[l - before.len()]);
            }
        }
        assert forall|e: int, inverted: bool, chain: RotationChain|
            0 <= e < evidence.len() && #[trigger] is_chain_of(
                chain,
                source,
                target,
                evidence[e],
                inverted,
            ) implies links.contains((e, inverted)) by {
            if e < n {
                assert(rest[e] == evidence[e]);
                assert(before.contains((e, inverted)));
                assert(links[before.index_of((e, inverted))] == (e, inverted));
            } else {
                let k = if found[0].inverted == inverted {
                    0int
                } else {
                    1int
                };
                assert(found[k].inverted == inverted);
                assert(links[before.len() + k] == (e, inverted));
            }
        }
        links
    }
}

/// The support of the candidates below `n` whose angle to the seed is within the radius.
pub open spec fn near_support(candidates: CandidateModel, seed: int, n: nat) -> int
    decreases n,
{
    if n == 0 {
        0
    } else {
        near_support(candidates, seed, (n - 1) as nat) + if candidates.angles[seed][n - 1].le(
            candidates.radius,
        ) {
            candidates.supports[n - 1] as int
        } else {
            0
        }
    }
}

proof fn lemma_near_support(candidates: CandidateModel, seed: int, n: nat)
    requires
        n <= usize::MAX,
    ensures
        candidates.support_of(indices_where(n, candidates.is_near(seed))) == near_support(
            candidates,
            seed,
            n,
        ),
        indices_where(n, candidates.is_near(seed)).len() == count_where(
            n,
            |k: int| candidates.angles[seed][k].le(candidates.radius),
        ),
    decreases n,
{
    if n > 0 {
        let m = (n - 1) as nat;
        lemma_near_support(candidates, seed, m);
        let before = indices_where(m, candidates.is_near(seed));
        assert(before.push(m as usize).drop_last() =~= before);
    }
}

/// The seed with the strongest consensus: no other seed's neighbours have more support;
/// none with as much support has a smaller residual; and none that agrees in both comes
/// earlier. Its consensus are the candidates within the radius of it.
pub proof fn the_strongest_seed_is_taken(
    candidates: CandidateModel,
    residuals: Seq<Scalar>,
    n: nat,
    seed: int,
)
    requires
        n == candidates.rotations.len(),
        n <= usize::MAX,
        0 <= seed < n,
    ensures
        ({
            let best = best_seed(candidates, residuals, n);
            let support = near_support(candidates, seed, n);
            &&& support <= best.support
            &&& support == best.support ==> !residuals[seed].lt(best.residual)
            &&& support == best.support && residuals[seed].le(best.residual) && best.residual.le(
                residuals[seed],
            ) ==> best.seed <= seed
            &&& support > 0 ==> {
                &&& 0 <= best.seed < n
                &&& best.support == near_support(candidates, best.seed, n)
                &&& best.residual == residuals[best.seed]
                &&& best.inliers.len() == count_where(
                    n,
                    |k: int| candidates.angles[best.seed][k].le(candidates.radius),
                )
                &&& forall|k: usize|
                    best.inliers.contains(k) <==> k < n
                        && #[trigger] candidates.angles[best.seed][k as int].le(candidates.radius)
            }
        }),
{
    lemma_best_seed(candidates, residuals, n, seed);
    lemma_near_support(candidates, seed, n);
    let best = best_seed(candidates, residuals, n);
    if near_support(candidates, seed, n) > 0 {
        lemma_near_support(candidates, best.seed, n);
        let p = candidates.is_near(best.seed);
        lemma_indices_where(n, p);
        assert forall|k: usize|
            best.inliers.contains(k) <==> k < n
                && #[trigger] candidates.angles[best.seed][k as int].le(candidates.radius) by {
            if best.inliers.contains(k) {
                let i = best.inliers.index_of(k);
                assert(p(best.inliers[i] as int));
            }
            if k < n && candidates.angles[best.seed][k as int].le(candidates.radius) {
                assert(p(k as int));
            }
        }
    }
}

proof fn lemma_best_seed(candidates: CandidateModel, residuals: Seq<Scalar>, n: nat, seed: int)
    requires
        0 <= seed < n,
    ensures
        ({
            let best = best_seed(candidates, residuals, n);
            let support = candidates.support_of(candidates.inliers(seed));
            &&& support <= best.support
            &&& support == best.support ==> !residuals[seed].lt(best.residual)
            &&& support == best.support && residuals[seed].le(best.residual) && best.residual.le(
                residuals[seed],
            ) ==> best.seed <= seed
            &&& best.support > 0 ==> {
                &&& 0 <= best.seed < n
                &&& best.inliers == candidates.inliers(best.seed)
                &&& best.support == candidates.support_of(best.inliers)
                &&& best.residual == residuals[best.seed]
            }
        }),
    decreases n,
{
    if seed < n - 1 {
        lemma_best_seed(candidates, residuals, (n - 1) as nat, seed);
    } else if n > 1 {
        lemma_best_seed(candidates, residuals, (n - 1) as nat, n - 2);
        lemma_best_is_earlier(candidates, residuals, (n - 1) as nat);
    }
}

proof fn lemma_best_is_earlier(candidates: CandidateModel, residuals: Seq<Scalar>, n: nat)
    ensures
        0 <= best_seed(candidates, residuals, n).seed <= n,
        n > 0 ==> best_seed(candidates, residuals, n).seed < n,
    decreases n,
{
    if n > 0 {
        lemma_best_is_earlier(candidates, residuals, (n - 1) as nat);
    }
}

/// What the evidence says of a seed's consensus.
pub open spec fn is_strongest_consensus(
    candidates: CandidateModel,
    residuals: Seq<Scalar>,
    seed: int,
    evidence: SubmapOverlapEvidence,
) -> bool {
    let n = candidates.rotations.len();
    &&& 0 <= seed < n
    &&& evidence.rotation_candidate_count == n
    &&& evidence.target_from_source_rotation == candidates.rotations[seed]
    &&& evidence.rotation_consensus_count == count_where(
        n,
        |k: int| candidates.angles[seed][k].le(candidates.radius),
    )
    &&& evidence.rotation_consensus_inlier_support == near_support(candidates, seed, n)
    &&& forall|other: int|
        0 <= other < n ==> (#[trigger] near_support(candidates, other, n)) <= near_support(
            candidates,
            seed,
            n,
        ) && (near_support(candidates, other, n) == near_support(candidates, seed, n)
            ==> !residuals[other].lt(residuals[seed]))
}

/// Evidence of an overlap rests on at least one rotation candidate, and its rotation is
/// the candidate whose consensus is strongest: the candidates within the agreed angle of
/// it are at least as many as asked for, and at least one. Too few are refused, with the
/// numbers asked for and found. This speaks of pairs that have at least one inlier.
pub proof fn evidence_rests_on_the_strongest_consensus<C, A, Z, T, D>(
    source: LocalSubmap,
    target: LocalSubmap,
    pair_rotations: Seq<PairRotationEvidence>,
    config: SubmapOverlapConfig,
    numerics: OverlapNumerics<C, A, Z, T, D>,
    result: Result<SubmapOverlapEvidence, SubmapOverlapError>,
) -> (found: (CandidateModel, Seq<Scalar>, int)) where
    C: Fn(&RotationChain) -> Quaternion,
    A: Fn(&Quaternion, &Quaternion) -> Scalar,
    Z: Fn(&Vec<Scalar>, &Vec<usize>) -> Scalar,
    T: Fn(Scalar) -> Scalar,
    D: Fn(Scalar) -> Scalar,

    requires
        is_overlap(source, target, pair_rotations, config, numerics, result),
        rotation_chains(source.frames@, target.frames@, pair_rotations).len() <= usize::MAX,
    ensures
        result == Err::<SubmapOverlapEvidence, _>(SubmapOverlapError::NoRotationCandidates)
            <==> rotation_chains(source.frames@, target.frames@, pair_rotations).len() == 0,
        result matches Ok(evidence) ==> {
            &&& evidence.rotation_candidate_count == rotation_chains(
                source.frames@,
                target.frames@,
                pair_rotations,
            ).len()
            &&& evidence.rotation_consensus_count >= 1
            &&& evidence.rotation_consensus_count >= config.min_rotation_consensus_candidates
            &&& evidence.rotation_consensus_inlier_support > 0 ==> are_candidates_of(
                found.0,
                found.1,
                rotation_chains(source.frames@, target.frames@, pair_rotations),
                config.max_rotation_disagreement_deg,
                numerics,
            ) && is_strongest_consensus(found.0, found.1, found.2, evidence)
        },
        result matches Err(SubmapOverlapError::InsufficientRotationConsensus {
            required,
            found: count,
        }) ==> count < required && required >= 1 && required
            >= config.min_rotation_consensus_candidates && (required > 1 ==> required
            == config.min_rotation_consensus_candidates),
{
    let chains = rotation_chains(source.frames@, target.frames@, pair_rotations);
    if chains.len() == 0 {
        (
            CandidateModel {
                rotations: Seq::empty(),
                supports: Seq::empty(),
                angles: Seq::empty(),
                radius: Scalar::zero(),
            },
            Seq::empty(),
            0,
        )
    } else {
        let (candidates, residuals, degrees) = choose|
            candidates: CandidateModel,
            residuals: Seq<Scalar>,
            degrees: Seq<Scalar>,
        |
            {
                &&& #[trigger] are_candidates_of(
                    candidates,
                    residuals,
                    chains,
                    config.max_rotation_disagreement_deg,
                    numerics,
                )
                &&& #[trigger] is_overlap_verdict(
                    source,
                    target,
                    config,
                    candidates,
                    best_seed(candidates, residuals, chains.len()),
                    degrees,
                    numerics,
                    result,
                )
            };
        let n = chains.len();
        let best = best_seed(candidates, residuals, n);
        if let Ok(evidence) = result {
            if evidence.rotation_consensus_inlier_support > 0 {
                assert forall|other: int| 0 <= other < n implies (#[trigger] near_support(
                    candidates,
                    other,
                    n,
                )) <= best.support && (near_support(candidates, other, n) == best.support
                    ==> !residuals[other].lt(best.residual)) by {
                    the_strongest_seed_is_taken(candidates, residuals, n, other);
                }
                lemma_best_is_earlier(candidates, residuals, n);
                lemma_best_seed(candidates, residuals, n, 0);
                lemma_best_support(candidates, residuals, n);
                lemma_near_support(candidates, best.seed, n);
                assert(is_strongest_consensus(candidates, residuals, best.seed, evidence));
            }
        }
        (candidates, residuals, best.seed)
    }
}

proof fn lemma_best_support(candidates: CandidateModel, residuals: Seq<Scalar>, n: nat)
    ensures
        ({
            let best = best_seed(candidates, residuals, n);
            best.support == candidates.support_of(best.inliers)
        }),
    decreases n,
{
    if n > 0 {
        lemma_best_support(candidates, residuals, (n - 1) as nat);
    }
}

/// What a shape says of two factors: nothing where both stay within the floor; else the
/// larger one is on the defective side, and the ratio is that of the larger to the smaller,
/// or infinite where only the larger exceeds the floor.
pub proof fn shapes_blame_the_larger_factor(
    shared_frames: usize,
    source_factor: Scalar,
    target_factor: Scalar,
    quotient: Scalar,
)
    requires
        !source_factor.is_nan(),
        !target_factor.is_nan(),
    ensures
        ({
            let floor = Scalar { bits: MIN_CHANGE_FACTOR_BITS };
            let found = shape_verdict(shared_frames, source_factor, target_factor, quotient);
            &&& found is Some <==> floor.lt(source_factor) || floor.lt(target_factor)
            &&& found matches Some(shape) ==> {
                &&& shape.shared_frames == shared_frames
                &&& shape.source_change_factor == source_factor
                &&& shape.target_change_factor == target_factor
                &&& shape.defective_side == SeamDriftSide::Source <==> target_factor.le(
                    source_factor,
                )
                &&& floor.lt(source_factor) && floor.lt(target_factor)
                    ==> shape.disagreement_ratio == quotient
                &&& source_factor.le(floor) || target_factor.le(floor) ==> shape.disagreement_ratio
                    == Scalar::infinity()
            }
            &&& ordered_factors(source_factor, target_factor).1.le(
                ordered_factors(source_factor, target_factor).0,
            )
            &&& ordered_factors(source_factor, target_factor) == (source_factor, target_factor)
                || ordered_factors(source_factor, target_factor) == (target_factor, source_factor)
        }),
{
}

/// A shape is only given where the shared frames fill two windows, and at least two.
pub proof fn shapes_need_two_windows<K, V>(
    matches: Seq<SubmapPointMatch>,
    window_count: usize,
    drift: K,
    divide: V,
    found: Option<SeamStepShapeDiagnostic>,
) where K: Fn(&Vec<Point3>, usize) -> Scalar, V: Fn(Scalar, Scalar) -> Scalar
    requires
        is_seam_shape(matches, window_count, drift, divide, found),
        matched_frames(matches).len() <= usize::MAX,
    ensures
        found matches Some(shape) ==> shape.shared_frames == matched_frames(matches).len()
            && shape.shared_frames >= 2 && shape.shared_frames >= 2 * window_count,
        forall|id: u64|
            matched_frames(matches).contains(id) <==> exists|k: int|
                0 <= k < matches.len() && (#[trigger] matches[k]).source_landmark_id == id,
{
    let ids = matches.map_values(|m: SubmapPointMatch| m.source_landmark_id);
    crate::sequences::lemma_sorted_set_of(ids);
    assert forall|id: u64|
        matched_frames(matches).contains(id) <==> exists|k: int|
            0 <= k < matches.len() && (#[trigger] matches[k]).source_landmark_id == id by {
        if ids.contains(id) {
            assert(matches[ids.index_of(id)].source_landmark_id == id);
        }
        if exists|k: int| 0 <= k < matches.len() && (#[trigger] matches[k]).source_landmark_id
            == id {
            let k = choose|k: int|
                0 <= k < matches.len() && (#[trigger] matches[k]).source_landmark_id == id;
            assert(ids[k] == id);
        }
    }
}

/// What the candidates of an overlap are: one for each rotation chain, composed along it and
/// supported by its inliers; the angle between every two of them; and the radius that the
/// configured angle stands for. The residual of a candidate weighs the angles to those within
/// the radius by their support.
pub proof fn candidates_follow_their_chains<C, A, Z, T, D>(
    candidates: CandidateModel,
    residuals: Seq<Scalar>,
    chains: Seq<RotationChain>,
    limit_deg: Scalar,
    numerics: OverlapNumerics<C, A, Z, T, D>,
    i: int,
    j: int,
) -> (lists: (Vec<Scalar>, Vec<usize>)) where
    C: Fn(&RotationChain) -> Quaternion,
    A: Fn(&Quaternion, &Quaternion) -> Scalar,
    Z: Fn(&Vec<Scalar>, &Vec<usize>) -> Scalar,
    T: Fn(Scalar) -> Scalar,
    D: Fn(Scalar) -> Scalar,

    requires
        are_candidates_of(candidates, residuals, chains, limit_deg, numerics),
        0 <= i < chains.len(),
        0 <= j < chains.len(),
    ensures
        candidates.rotations.len() == chains.len(),
        candidates.supports.len() == chains.len(),
        candidates.supports[i] == chains[i].inlier_count,
        call_ensures(numerics.compose, (&chains[i],), candidates.rotations[i]),
        call_ensures(
            numerics.angle,
            (&candidates.rotations[i], &candidates.rotations[j]),
            candidates.angles[i][j],
        ),
        call_ensures(numerics.radius, (limit_deg,), candidates.radius),
        call_ensures(numerics.residual, (&lists.0, &lists.1), residuals[i]),
        lists.0@.len() == candidates.inliers(i).len(),
        lists.1@.len() == candidates.inliers(i).len(),
        forall|k: int|
            #![trigger candidates.inliers(i)[k]]
            0 <= k < candidates.inliers(i).len() ==> lists.0@[k]
                == candidates.angles[i][candidates.inliers(i)[k] as int] && lists.1@[k]
                == candidates.supports[candidates.inliers(i)[k] as int],
{
    let rotation = candidates.rotations[i];
    let angle = candidates.angles[i][j];
    let angles = candidates.angles_at(i, candidates.inliers(i));
    let weights = candidates.supports_at(candidates.inliers(i));
    assert(numerics.weighs(angles, weights, residuals[i]));
    let (a, w) = choose|a: Vec<Scalar>, w: Vec<usize>|
        a@ == angles && w@ == weights && #[trigger] call_ensures(
            numerics.residual,
            (&a, &w),
            residuals[i],
        );
    (a, w)
}

/// What accepted evidence shows: mutual matches with at least one shared keypoint, or as many
/// as asked for, and the largest disagreement of the consensus in degrees.
pub proof fn evidence_shows_the_largest_disagreement<C, A, Z, T, D>(
    source: LocalSubmap,
    target: LocalSubmap,
    config: SubmapOverlapConfig,
    candidates: CandidateModel,
    best: BestSeed,
    degrees: Seq<Scalar>,
    numerics: OverlapNumerics<C, A, Z, T, D>,
    evidence: SubmapOverlapEvidence,
    k: int,
) where
    C: Fn(&RotationChain) -> Quaternion,
    A: Fn(&Quaternion, &Quaternion) -> Scalar,
    Z: Fn(&Vec<Scalar>, &Vec<usize>) -> Scalar,
    T: Fn(Scalar) -> Scalar,
    D: Fn(Scalar) -> Scalar,

    requires
        is_overlap_verdict(
            source,
            target,
            config,
            candidates,
            best,
            degrees,
            numerics,
            Ok(evidence),
        ),
        0 <= k < best.inliers.len(),
    ensures
        degrees.len() == best.inliers.len(),
        call_ensures(
            numerics.degrees,
            (candidates.angles[best.seed][best.inliers[k] as int],),
            degrees[k],
        ),
        !degrees[k].is_nan() ==> degrees[k].le(evidence.max_rotation_disagreement_deg),
        evidence.max_rotation_disagreement_deg == Scalar::zero() || degrees.contains(
            evidence.max_rotation_disagreement_deg,
        ),
        config.min_shared_observations_per_landmark >= 1 ==> are_mutual_matches(
            evidence.point_matches@,
            source.landmarks@,
            target.landmarks@,
            config.min_shared_observations_per_landmark as int,
        ),
        config.min_shared_observations_per_landmark == 0 ==> are_mutual_matches(
            evidence.point_matches@,
            source.landmarks@,
            target.landmarks@,
            1,
        ),
{
    largest_bounds_all(degrees, k);
    let degree = degrees[k];
}

} // verus!
