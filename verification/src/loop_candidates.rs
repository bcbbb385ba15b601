//! Selection of loop candidates along a trajectory.
//!
//! Revisited places are proposed by appearance, gated by the distance travelled in
//! between, and verified geometrically. This module decides which pairs are proposed,
//! which are verified and in which order, and which correspondences a verification sees;
//! similarities, distances and verifications are given.
use crate::order::{precedes, stable_order, stable_order_exists, stable_order_of, SortKey};
use crate::scalar::Scalar;
use crate::sequences::{
    count_where, first_n, indices_where, lemma_indices_where, lemma_take_all, lists_kept,
};
use vstd::prelude::*;

verus! {

/// A loop candidate proposed by appearance, before geometric verification.
#[derive(Clone, Copy, Debug, PartialEq, Eq, Structural)]
pub struct LoopCandidatePair {
    /// Earlier, revisited frame.
    pub older: usize,
    /// Later, querying frame.
    pub newer: usize,
    /// Similarity that proposed the pair.
    pub similarity: Scalar,
}

/// Every `stride`-th descriptor of one frame.
pub open spec fn strided(frame: usize, count: int, stride: int) -> Seq<(usize, usize)>
    decreases count,
{
    if count <= 0 || stride <= 0 {
        Seq::empty()
    } else if (count - 1) % stride == 0 {
        strided(frame, count - 1, stride).push((frame, (count - 1) as usize))
    } else {
        strided(frame, count - 1, stride)
    }
}

/// Every `stride`-th descriptor of each frame, frame by frame.
pub open spec fn pooled(counts: Seq<usize>, stride: int) -> Seq<(usize, usize)>
    decreases counts.len(),
{
    if counts.len() == 0 {
        Seq::empty()
    } else {
        pooled(counts.drop_last(), stride) + strided(
            (counts.len() - 1) as usize,
            counts.last() as int,
            stride,
        )
    }
}

/// The descriptors that enter the vocabulary, as frame and descriptor index: every
/// `stride`-th one of each frame, where a stride of zero means one.
pub fn pooled_descriptors(counts: &[usize], stride: usize) -> (pool: Vec<(usize, usize)>)
    ensures
        pool@ == pooled(
            counts@,
            if stride == 0 {
                1
            } else {
                stride as int
            },
        ),
{
    let step: usize = if stride == 0 { 1 } else { stride };
    let mut pool: Vec<(usize, usize)> = Vec::new();
    let mut frame: usize = 0;
    while frame < counts.len()
        invariant
            frame <= counts.len(),
            step > 0,
            pool@ == pooled(counts@.take(frame as int), step as int),
        decreases counts.len() - frame,
    {
        let count: usize = counts[frame];
        let ghost before = pool@;
        let mut index: usize = 0;
        while index < count
            invariant
                index <= count,
                step > 0,
                pool@ == before + strided(frame, index as int, step as int),
            decreases count - index,
        {
            if index % step == 0 {
                pool.push((frame, index));
            }
            index += 1;
            assert(pool@ =~= before + strided(frame, index as int, step as int));
        }
        proof {
            assert(counts@.take(frame + 1).drop_last() =~= counts@.take(frame as int));
        }
        frame += 1;
    }
    proof {
        lemma_take_all(counts@);
    }
    pool
}

/// The size to which a pool is cut down, where it exceeds a positive cap.
pub fn pool_cap(pool_len: usize, max_pool: Option<usize>) -> (cap: Option<usize>)
    ensures
        cap == (match max_pool {
            Some(limit) if 0 < limit < pool_len => Some(limit),
            _ => None,
        }),
{
    match max_pool {
        Some(limit) => if 0 < limit && limit < pool_len {
            Some(limit)
        } else {
            None
        },
        None => None,
    }
}

/// Selects the frames whose similarity clears the floor.
pub open spec fn is_similar(row: Seq<Scalar>, min_similarity: Scalar) -> spec_fn(int) -> bool {
    |older: int| min_similarity.le(row[older])
}

/// More similar frames come first.
pub open spec fn similarity_key(similarity: Scalar) -> SortKey {
    SortKey::one(-similarity.rank() as i128)
}

/// The candidates that one frame proposes: of the first `count` frames those that
/// clear the floor, the most similar first, equally similar ones by age, and at most
/// `maximum` of them.
pub open spec fn frame_candidates(
    row: Seq<Scalar>,
    newer: usize,
    count: nat,
    min_similarity: Scalar,
    maximum: int,
) -> Seq<LoopCandidatePair> {
    let similar = indices_where(count, is_similar(row, min_similarity));
    let keys = similar.map_values(|older: usize| similarity_key(row[older as int]));
    let order = first_n(stable_order_of(keys), maximum);
    Seq::new(
        order.len(),
        |k: int|
            LoopCandidatePair {
                older: similar[order[k] as int],
                newer,
                similarity: row[similar[order[k] as int] as int],
            },
    )
}

/// The candidates that the first `n` frames propose, frame by frame.
pub open spec fn loop_candidates(
    similarities: Seq<Vec<Scalar>>,
    n: nat,
    min_frame_gap: nat,
    min_similarity: Scalar,
    maximum: int,
) -> Seq<LoopCandidatePair>
    decreases n,
{
    if n <= min_frame_gap {
        Seq::empty()
    } else {
        loop_candidates(similarities, (n - 1) as nat, min_frame_gap, min_similarity, maximum)
            + frame_candidates(
            similarities[n - 1]@,
            (n - 1) as usize,
            (n - min_frame_gap) as nat,
            min_similarity,
            maximum,
        )
    }
}

fn propose_for_frame(
    row: &Vec<Scalar>,
    newer: usize,
    count: usize,
    min_similarity: Scalar,
    maximum: usize,
) -> (candidates: Vec<LoopCandidatePair>)
    requires
        count <= row.len(),
    ensures
        candidates@ == frame_candidates(
            row@,
            newer,
            count as nat,
            min_similarity,
            maximum as int,
        ),
{
    let ghost p = is_similar(row@, min_similarity);
    let mut similar: Vec<usize> = Vec::new();
    let mut keys: Vec<SortKey> = Vec::new();
    let mut older: usize = 0;
    while older < count
        invariant
            older <= count <= row.len(),
            p == is_similar(row@, min_similarity),
            similar@ == indices_where(older as nat, p),
            forall|k: int| 0 <= k < similar.len() ==> (#[trigger] similar[k]) < row.len(),
            keys.len() == similar.len(),
            forall|k: int|
                0 <= k < keys.len() ==> #[trigger] keys[k] == similarity_key(
                    row[similar[k] as int],
                ),
        decreases count - older,
    {
        if min_similarity.le(row[older]) {
            similar.push(older);
            keys.push(SortKey::one(-row[older].numeric_rank()));
        }
        older += 1;
    }
    assert(keys@ =~= similar@.map_values(|older: usize| similarity_key(row@[older as int])));
    let order = stable_order(&keys);
    let mut candidates: Vec<LoopCandidatePair> = Vec::new();
    let mut k: usize = 0;
    while k < order.len() && k < maximum
        invariant
            k <= order.len(),
            k <= maximum,
            order.len() == similar.len(),
            forall|j: int| 0 <= j < order.len() ==> (#[trigger] order[j]) < similar.len(),
            forall|j: int| 0 <= j < similar.len() ==> (#[trigger] similar[j]) < row.len(),
            candidates.len() == k,
            forall|j: int|
                0 <= j < k ==> #[trigger] candidates[j] == (LoopCandidatePair {
                    older: similar[order[j] as int],
                    newer,
                    similarity: row[similar[order[j] as int] as int],
                }),
        decreases order.len() - k,
    {
        let index: usize = similar[order[k]];
        candidates.push(LoopCandidatePair { older: index, newer, similarity: row[index] });
        k += 1;
    }
    assert(candidates@ =~= frame_candidates(
        row@,
        newer,
        count as nat,
        min_similarity,
        maximum as int,
    ));
    candidates
}

/// Proposes loop candidates by gap-constrained retrieval: for each frame, its
/// strongest earlier matches at least `min_frame_gap` frames back whose similarity
/// clears `min_similarity`.
///
/// `similarities[newer][older]` is the similarity of two frames; it is read for
/// `older <= newer - min_frame_gap`.
pub fn detect_loop_candidates(
    similarities: &Vec<Vec<Scalar>>,
    min_frame_gap: usize,
    min_similarity: Scalar,
    max_candidates_per_frame: usize,
) -> (candidates: Vec<LoopCandidatePair>)
    requires
        min_frame_gap > 0 && max_candidates_per_frame > 0 ==> forall|newer: int|
            min_frame_gap <= newer < similarities.len() ==> (#[trigger] similarities[newer]).len()
                > newer - min_frame_gap,
    ensures
        min_frame_gap == 0 || max_candidates_per_frame == 0 ==> candidates.len() == 0,
        min_frame_gap > 0 && max_candidates_per_frame > 0 ==> candidates@ == loop_candidates(
            similarities@,
            similarities.len() as nat,
            min_frame_gap as nat,
            min_similarity,
            max_candidates_per_frame as int,
        ),
{
    let mut candidates: Vec<LoopCandidatePair> = Vec::new();
    if min_frame_gap == 0 || max_candidates_per_frame == 0 {
        return candidates;
    }
    let mut newer: usize = min_frame_gap;
    while newer < similarities.len()
        invariant
            min_frame_gap <= newer,
            newer <= similarities.len() || newer == min_frame_gap,
            forall|k: int|
                min_frame_gap <= k < similarities.len() ==> (#[trigger] similarities[k]).len() > k
                    - min_frame_gap,
            candidates@ == loop_candidates(
                similarities@,
                newer as nat,
                min_frame_gap as nat,
                min_similarity,
                max_candidates_per_frame as int,
            ),
        decreases similarities.len() - newer,
    {
        let mut more = propose_for_frame(
            &similarities[newer],
            newer,
            newer - min_frame_gap + 1,
            min_similarity,
            max_candidates_per_frame,
        );
        candidates.append(&mut more);
        newer += 1;
    }
    candidates
}

/// The candidate's frames are separated by enough travel.
pub open spec fn travelled_far(travelled: Seq<Scalar>, min_path: Scalar) -> spec_fn(int) -> bool {
    |k: int| min_path.le(travelled[k])
}

/// The candidates at the given positions.
pub open spec fn candidates_at(candidates: Seq<LoopCandidatePair>, at: Seq<usize>) -> Seq<
    LoopCandidatePair,
> {
    Seq::new(at.len(), |k: int| candidates[at[k] as int])
}

/// The candidates that pass the travel gate. A gate that is absent or not positive
/// lets everything pass.
pub open spec fn travel_gated(
    candidates: Seq<LoopCandidatePair>,
    travelled: Seq<Scalar>,
    min_path_length: Option<Scalar>,
) -> Seq<LoopCandidatePair> {
    match min_path_length {
        Some(min_path) if Scalar::zero().lt(min_path) => candidates_at(
            candidates,
            indices_where(candidates.len(), travelled_far(travelled, min_path)),
        ),
        _ => candidates,
    }
}

/// Keeps the candidates whose two frames are separated by enough travel for drift to
/// have built up. `travelled[k]` is the path length between the frames of candidate
/// `k`; it is read where a positive minimum is set.
pub fn keep_travelled(
    candidates: Vec<LoopCandidatePair>,
    travelled: &[Scalar],
    min_path_length: Option<Scalar>,
) -> (kept: Vec<LoopCandidatePair>)
    requires
        min_path_length matches Some(min_path) ==> (Scalar::zero().lt(min_path) ==> travelled.len()
            == candidates.len()),
    ensures
        kept@ == travel_gated(candidates@, travelled@, min_path_length),
{
    match min_path_length {
        Some(min_path) => {
            if !Scalar::zero().lt(min_path) {
                return candidates;
            }
            let ghost p = travelled_far(travelled@, min_path);
            let mut kept: Vec<LoopCandidatePair> = Vec::new();
            let mut k: usize = 0;
            while k < candidates.len()
                invariant
                    k <= candidates.len(),
                    travelled.len() == candidates.len(),
                    p == travelled_far(travelled@, min_path),
                    kept@ == candidates_at(candidates@, indices_where(k as nat, p)),
                decreases candidates.len() - k,
            {
                let ghost before = kept@;
                if min_path.le(travelled[k]) {
                    kept.push(candidates[k]);
                }
                k += 1;
                assert(kept@ =~= candidates_at(candidates@, indices_where(k as nat, p)));
            }
            kept
        },
        None => candidates,
    }
}

/// The candidates in the order in which they are verified: by decreasing similarity,
/// equally similar ones in the order given, and no more than the cap allows.
pub open spec fn to_verify(candidates: Seq<LoopCandidatePair>, cap: Option<usize>) -> Seq<
    LoopCandidatePair,
> {
    let keys = candidates.map_values(
        |candidate: LoopCandidatePair| similarity_key(candidate.similarity),
    );
    let order = stable_order_of(keys);
    candidates_at(
        candidates,
        match cap {
            Some(limit) => first_n(order, limit as int),
            None => order,
        },
    )
}

/// Orders the candidates for verification, so that a cap spends the expensive
/// geometric stage on the most promising pairs.
pub fn verification_order(candidates: &[LoopCandidatePair], max_verifications: Option<usize>) -> (ordered:
    Vec<LoopCandidatePair>)
    requires
        forall|k: int|
            0 <= k < candidates.len() ==> !(#[trigger] candidates[k]).similarity.is_nan(),
    ensures
        ordered@ == to_verify(candidates@, max_verifications),
{
    let mut keys: Vec<SortKey> = Vec::new();
    let mut i: usize = 0;
    while i < candidates.len()
        invariant
            i <= candidates.len(),
            keys.len() == i,
            forall|k: int|
                0 <= k < i ==> #[trigger] keys[k] == similarity_key(candidates[k].similarity),
        decreases candidates.len() - i,
    {
        keys.push(SortKey::one(-candidates[i].similarity.numeric_rank()));
        i += 1;
    }
    assert(keys@ =~= candidates@.map_values(
        |candidate: LoopCandidatePair| similarity_key(candidate.similarity),
    ));
    let order = stable_order(&keys);
    let limit: usize = match max_verifications {
        Some(cap) => cap,
        None => order.len(),
    };
    let mut ordered: Vec<LoopCandidatePair> = Vec::new();
    let mut k: usize = 0;
    while k < order.len() && k < limit
        invariant
            k <= order.len(),
            k <= limit,
            order.len() == candidates.len(),
            forall|j: int| 0 <= j < order.len() ==> (#[trigger] order[j]) < candidates.len(),
            ordered.len() == k,
            forall|j: int| 0 <= j < k ==> #[trigger] ordered[j] == candidates[order[j] as int],
        decreases order.len() - k,
    {
        ordered.push(candidates[order[k]]);
        k += 1;
    }
    assert(ordered@ =~= to_verify(candidates@, max_verifications));
    ordered
}

/// One match of a newer frame's descriptor with an older frame's.
#[derive(Clone, Copy, Debug, PartialEq, Eq, Structural)]
pub struct DescriptorMatch {
    /// Descriptor of the newer frame.
    pub query_index: usize,
    /// Descriptor of the older frame.
    pub train_index: usize,
    pub confidence: Scalar,
}

/// A keypoint of the newer frame paired with a stereo point of the older one.
#[derive(Clone, Copy, Debug, PartialEq, Eq, Structural)]
pub struct LoopCorrespondence {
    /// Keypoint of the newer frame.
    pub keypoint_index: usize,
    /// Position in the older frame's stereo features.
    pub stereo_index: usize,
    pub confidence: Scalar,
}

/// The last of the stereo features that belongs to a keypoint.
pub open spec fn stereo_of(left_indices: Seq<usize>, keypoint: usize) -> Option<usize>
    decreases left_indices.len(),
{
    if left_indices.len() == 0 {
        None
    } else if left_indices.last() == keypoint {
        Some((left_indices.len() - 1) as usize)
    } else {
        stereo_of(left_indices.drop_last(), keypoint)
    }
}

/// The matches that have a stereo point on the older side and a keypoint on the
/// newer side, in order.
pub open spec fn lifted(
    left_indices: Seq<usize>,
    matches: Seq<DescriptorMatch>,
    keypoints: int,
) -> Seq<LoopCorrespondence>
    decreases matches.len(),
{
    if matches.len() == 0 {
        Seq::empty()
    } else {
        let rest = lifted(left_indices, matches.drop_last(), keypoints);
        let last = matches.last();
        match stereo_of(left_indices, last.train_index) {
            Some(stereo_index) if last.query_index < keypoints => rest.push(
                LoopCorrespondence {
                    keypoint_index: last.query_index,
                    stereo_index,
                    confidence: last.confidence,
                },
            ),
            _ => rest,
        }
    }
}

fn find_stereo(left_indices: &[usize], keypoint: usize) -> (found: Option<usize>)
    ensures
        found == stereo_of(left_indices@, keypoint),
        found matches Some(k) ==> k < left_indices.len(),
{
    let mut n: usize = left_indices.len();
    proof {
        lemma_take_all(left_indices@);
    }
    while n > 0
        invariant
            n <= left_indices.len(),
            stereo_of(left_indices@, keypoint) == stereo_of(
                left_indices@.take(n as int),
                keypoint,
            ),
        decreases n,
    {
        assert(left_indices@.take(n as int).drop_last() =~= left_indices@.take(n - 1));
        if left_indices[n - 1] == keypoint {
            return Some(n - 1);
        }
        n -= 1;
    }
    None
}

/// Pairs the newer frame's keypoints with the older frame's stereo points along the
/// descriptor matches. `left_indices[k]` is the keypoint of the older frame's stereo
/// feature `k`; where several belong to one keypoint, the last one counts. None where
/// the older frame has no stereo feature.
pub fn loop_correspondences(
    left_indices: &[usize],
    matches: &[DescriptorMatch],
    newer_keypoints: usize,
) -> (result: Option<Vec<LoopCorrespondence>>)
    ensures
        result is None <==> left_indices.len() == 0,
        result matches Some(correspondences) ==> correspondences@ == lifted(
            left_indices@,
            matches@,
            newer_keypoints as int,
        ),
{
    if left_indices.len() == 0 {
        return None;
    }
    let mut correspondences: Vec<LoopCorrespondence> = Vec::new();
    let mut i: usize = 0;
    while i < matches.len()
        invariant
            i <= matches.len(),
            correspondences@ == lifted(
                left_indices@,
                matches@.take(i as int),
                newer_keypoints as int,
            ),
        decreases matches.len() - i,
    {
        let descriptor_match = matches[i];
        proof {
            assert(matches@.take(i + 1).drop_last() =~= matches@.take(i as int));
        }
        match find_stereo(left_indices, descriptor_match.train_index) {
            Some(stereo_index) => {
                if descriptor_match.query_index < newer_keypoints {
                    correspondences.push(
                        LoopCorrespondence {
                            keypoint_index: descriptor_match.query_index,
                            stereo_index,
                            confidence: descriptor_match.confidence,
                        },
                    );
                }
            },
            None => {},
        }
        i += 1;
    }
    proof {
        lemma_take_all(matches@);
    }
    Some(correspondences)
}

/// What the geometric verification of a pair returned. `P` is a relative pose.
#[derive(Clone, Copy, Debug, PartialEq, Eq)]
pub struct LoopVerification<P> {
    pub verified: bool,
    pub relative_pose: Option<P>,
    pub inlier_count: usize,
    pub inlier_ratio: Scalar,
    pub mean_sampson_error: Scalar,
    pub score: Scalar,
}

/// A metric loop constraint from the older to the newer frame.
#[derive(Clone, Copy, Debug, PartialEq, Eq)]
pub struct LoopClosureConstraint<P> {
    pub from_keyframe_id: u64,
    pub to_keyframe_id: u64,
    pub relative_pose: P,
    pub inlier_count: usize,
    pub inlier_ratio: Scalar,
    pub mean_sampson_error: Scalar,
    pub score: Scalar,
}

/// The constraint of a verified pair; none where the verification did not succeed or
/// gave no pose.
pub fn loop_constraint<P>(candidate: LoopCandidatePair, verification: LoopVerification<P>) -> (constraint:
    Option<LoopClosureConstraint<P>>)
    requires
        candidate.older <= u64::MAX,
        candidate.newer <= u64::MAX,
    ensures
        constraint == (match verification.relative_pose {
            Some(relative_pose) if verification.verified => Some(
                LoopClosureConstraint {
                    from_keyframe_id: candidate.older as u64,
                    to_keyframe_id: candidate.newer as u64,
                    relative_pose,
                    inlier_count: verification.inlier_count,
                    inlier_ratio: verification.inlier_ratio,
                    mean_sampson_error: verification.mean_sampson_error,
                    score: verification.score,
                },
            ),
            _ => None,
        }),
{
    if !verification.verified {
        return None;
    }
    match verification.relative_pose {
        Some(relative_pose) => Some(
            LoopClosureConstraint {
                from_keyframe_id: candidate.older as u64,
                to_keyframe_id: candidate.newer as u64,
                relative_pose,
                inlier_count: verification.inlier_count,
                inlier_ratio: verification.inlier_ratio,
                mean_sampson_error: verification.mean_sampson_error,
                score: verification.score,
            },
        ),
        None => None,
    }
}

/// Every candidate keeps the frame gap and clears the similarity floor.
pub proof fn candidates_keep_gap_and_floor(
    similarities: Seq<Vec<Scalar>>,
    n: nat,
    min_frame_gap: nat,
    min_similarity: Scalar,
    maximum: int,
    k: int,
)
    requires
        n <= similarities.len() <= usize::MAX,
        maximum >= 0,
        0 <= k < loop_candidates(similarities, n, min_frame_gap, min_similarity, maximum).len(),
    ensures
        ({
            let candidate = loop_candidates(
                similarities,
                n,
                min_frame_gap,
                min_similarity,
                maximum,
            )[k];
            &&& candidate.older + min_frame_gap <= candidate.newer
            &&& candidate.newer < n
            &&& min_similarity.le(candidate.similarity)
            &&& candidate.similarity == similarities[candidate.newer as int][candidate.older as int]
        }),
    decreases n,
{
    if n > min_frame_gap {
        let rest = loop_candidates(
            similarities,
            (n - 1) as nat,
            min_frame_gap,
            min_similarity,
            maximum,
        );
        if k < rest.len() {
            candidates_keep_gap_and_floor(
                similarities,
                (n - 1) as nat,
                min_frame_gap,
                min_similarity,
                maximum,
                k,
            );
        } else {
            let row = similarities[n - 1]@;
            let count = (n - min_frame_gap) as nat;
            let p = is_similar(row, min_similarity);
            let similar = indices_where(count, p);
            lemma_indices_where(count, p);
            let keys = similar.map_values(|older: usize| similarity_key(row[older as int]));
            stable_order_exists(keys);
            let order = stable_order_of(keys);
            let older = similar[order[k - rest.len()] as int];
            assert(p(older as int));
        }
    }
}

/// Candidates are verified by decreasing similarity, and never more than the cap.
pub proof fn verification_prefers_similar_pairs(
    candidates: Seq<LoopCandidatePair>,
    cap: Option<usize>,
    i: int,
    j: int,
)
    requires
        candidates.len() <= usize::MAX,
        forall|k: int|
            0 <= k < candidates.len() ==> !(#[trigger] candidates[k]).similarity.is_nan(),
        0 <= i < j < to_verify(candidates, cap).len(),
    ensures
        to_verify(candidates, cap)[j].similarity.le(to_verify(candidates, cap)[i].similarity),
        cap matches Some(limit) ==> to_verify(candidates, cap).len() <= limit,
{
    let keys = candidates.map_values(
        |candidate: LoopCandidatePair| similarity_key(candidate.similarity),
    );
    stable_order_exists(keys);
    let order = stable_order_of(keys);
    assert(precedes(keys, order[i], order[j]));
}

/// The candidates that one frame has proposed.
pub open spec fn proposals_of(candidates: Seq<LoopCandidatePair>, newer: usize) -> Seq<
    LoopCandidatePair,
> {
    candidates.filter(|candidate: LoopCandidatePair| candidate.newer == newer)
}

proof fn lemma_filter_all_or_none(
    candidates: Seq<LoopCandidatePair>,
    newer: usize,
    from: usize,
)
    requires
        forall|k: int| 0 <= k < candidates.len() ==> (#[trigger] candidates[k]).newer == from,
    ensures
        proposals_of(candidates, newer) == if newer == from {
            candidates
        } else {
            Seq::empty()
        },
    decreases candidates.len(),
{
    reveal(Seq::filter);
    if candidates.len() > 0 {
        let rest = candidates.drop_last();
        assert forall|k: int| 0 <= k < rest.len() implies (#[trigger] rest[k]).newer == from by {
            assert(rest[k] == candidates[k]);
        }
        lemma_filter_all_or_none(rest, newer, from);
        assert(candidates[candidates.len() - 1].newer == from);
        assert(candidates =~= rest.push(candidates.last()));
    } else {
        assert(candidates =~= Seq::empty());
    }
}

proof fn lemma_proposals_of(
    similarities: Seq<Vec<Scalar>>,
    n: nat,
    min_frame_gap: nat,
    min_similarity: Scalar,
    maximum: int,
    newer: usize,
)
    requires
        n <= similarities.len() <= usize::MAX,
    ensures
        ({
            let all = loop_candidates(similarities, n, min_frame_gap, min_similarity, maximum);
            &&& proposals_of(all, newer) == if min_frame_gap <= newer < n {
                frame_candidates(
                    similarities[newer as int]@,
                    newer,
                    (newer + 1 - min_frame_gap) as nat,
                    min_similarity,
                    maximum,
                )
            } else {
                Seq::empty()
            }
            &&& forall|k: int| 0 <= k < all.len() ==> (#[trigger] all[k]).newer < n
            &&& forall|k: int, l: int|
                0 <= k < l < all.len() ==> (#[trigger] all[k]).newer <= (#[trigger] all[l]).newer
        }),
    decreases n,
{
    reveal(Seq::filter);
    if n > min_frame_gap {
        let m = (n - 1) as nat;
        lemma_proposals_of(similarities, m, min_frame_gap, min_similarity, maximum, newer);
        let rest = loop_candidates(similarities, m, min_frame_gap, min_similarity, maximum);
        let last = frame_candidates(
            similarities[n - 1]@,
            (n - 1) as usize,
            (n - min_frame_gap) as nat,
            min_similarity,
            maximum,
        );
        Seq::filter_distributes_over_add(
            rest,
            last,
            |candidate: LoopCandidatePair| candidate.newer == newer,
        );
        lemma_filter_all_or_none(last, newer, (n - 1) as usize);
        assert(Seq::<LoopCandidatePair>::empty() + last =~= last);
        assert(proposals_of(rest, newer) + Seq::empty() =~= proposals_of(rest, newer));
        let all = rest + last;
        assert forall|k: int, l: int| 0 <= k < l < all.len() implies (#[trigger] all[k]).newer <= (
        #[trigger] all[l]).newer by {
            if k < rest.len() {
                assert(all[k] == rest[k]);
            }
        }
    }
}

/// Each frame keeps its strongest earlier matches. Of the frames at least the gap before
/// it whose similarity is at least the floor, it proposes as many as the cap allows; the
/// more similar come first, equally similar ones by age; and none that is left out is more
/// similar than one that is proposed.
pub proof fn frames_propose_their_strongest_matches(
    similarities: Seq<Vec<Scalar>>,
    n: nat,
    min_frame_gap: nat,
    min_similarity: Scalar,
    maximum: int,
    newer: usize,
)
    requires
        n <= similarities.len() <= usize::MAX,
        0 < min_frame_gap <= newer < n,
        maximum >= 0,
    ensures
        ({
            let row = similarities[newer as int]@;
            let proposed = proposals_of(
                loop_candidates(similarities, n, min_frame_gap, min_similarity, maximum),
                newer,
            );
            let eligible = count_where(
                (newer + 1 - min_frame_gap) as nat,
                |older: int| min_similarity.le(row[older]),
            );
            &&& proposed.len() == if eligible <= maximum {
                eligible as int
            } else {
                maximum
            }
            &&& forall|k: int|
                0 <= k < proposed.len() ==> (#[trigger] proposed[k]).older + min_frame_gap <= newer
                    && proposed[k].newer == newer && proposed[k].similarity
                    == row[proposed[k].older as int] && min_similarity.le(proposed[k].similarity)
            &&& forall|k: int, l: int|
                0 <= k < l < proposed.len() ==> (#[trigger] proposed[l]).similarity.le(
                    (#[trigger] proposed[k]).similarity,
                ) && (proposed[k].similarity.le(proposed[l].similarity) ==> proposed[k].older
                    < proposed[l].older)
            &&& forall|older: usize, k: int|
                older + min_frame_gap <= newer && min_similarity.le(#[trigger] row[older as int])
                    && (forall|j: int|
                    0 <= j < proposed.len() ==> (#[trigger] proposed[j]).older != older) && 0 <= k
                    < proposed.len() ==> row[older as int].le((#[trigger] proposed[k]).similarity)
                    && (proposed[k].similarity.le(row[older as int]) ==> proposed[k].older < older)
        }),
{
    lemma_proposals_of(similarities, n, min_frame_gap, min_similarity, maximum, newer);
    let row = similarities[newer as int]@;
    let count = (newer + 1 - min_frame_gap) as nat;
    let p = is_similar(row, min_similarity);
    let q = |older: int| min_similarity.le(row[older]);
    lemma_indices_where(count, p);
    crate::sequences::lemma_count_same(count, p, q);
    let similar = indices_where(count, p);
    let keys = similar.map_values(|older: usize| similarity_key(row[older as int]));
    stable_order_exists(keys);
    let order = stable_order_of(keys);
    let proposed = proposals_of(
        loop_candidates(similarities, n, min_frame_gap, min_similarity, maximum),
        newer,
    );
    assert forall|k: int| 0 <= k < proposed.len() implies (#[trigger] proposed[k]).older
        + min_frame_gap <= newer && proposed[k].newer == newer && proposed[k].similarity
        == row[proposed[k].older as int] && min_similarity.le(proposed[k].similarity) by {
        assert(p(similar[order[k] as int] as int));
    }
    assert forall|k: int, l: int| 0 <= k < l < proposed.len() implies (
    #[trigger] proposed[l]).similarity.le((#[trigger] proposed[k]).similarity) && (
    proposed[k].similarity.le(proposed[l].similarity) ==> proposed[k].older
        < proposed[l].older) by {
        assert(precedes(keys, order[k], order[l]));
        assert(p(similar[order[k] as int] as int) && p(similar[order[l] as int] as int));
    }
    assert forall|older: usize, k: int|
        older + min_frame_gap <= newer && min_similarity.le(#[trigger] row[older as int]) && (
        forall|j: int| 0 <= j < proposed.len() ==> (#[trigger] proposed[j]).older != older) && 0
            <= k < proposed.len() implies row[older as int].le((#[trigger] proposed[k]).similarity)
        && (proposed[k].similarity.le(row[older as int]) ==> proposed[k].older < older) by {
        assert(p(older as int));
        let x = similar.index_of(older) as usize;
        crate::order::stable_order_is_complete(keys, order, x);
        let i = order.index_of(x);
        if i < proposed.len() {
            assert(proposed[i].older == older);
        }
        assert(precedes(keys, order[k], order[i]));
        assert(p(similar[order[k] as int] as int));
    }
}

/// Candidates come frame by frame, and none comes twice.
pub proof fn candidates_come_frame_by_frame(
    similarities: Seq<Vec<Scalar>>,
    n: nat,
    min_frame_gap: nat,
    min_similarity: Scalar,
    maximum: int,
    k: int,
    l: int,
)
    requires
        n <= similarities.len() <= usize::MAX,
        maximum >= 0,
        0 <= k < l < loop_candidates(similarities, n, min_frame_gap, min_similarity, maximum).len(),
    ensures
        loop_candidates(similarities, n, min_frame_gap, min_similarity, maximum)[k].newer
            <= loop_candidates(similarities, n, min_frame_gap, min_similarity, maximum)[l].newer,
{
    lemma_proposals_of(similarities, n, min_frame_gap, min_similarity, maximum, 0);
}

/// What is verified, by position: the candidates by decreasing similarity, equally similar
/// ones in the order given; as many as there are, or as the cap allows; and none that is
/// left out is more similar than one that is verified.
pub proof fn verification_takes_the_most_similar(
    candidates: Seq<LoopCandidatePair>,
    cap: Option<usize>,
) -> (at: Seq<int>)
    requires
        candidates.len() <= usize::MAX,
        forall|k: int|
            0 <= k < candidates.len() ==> !(#[trigger] candidates[k]).similarity.is_nan(),
    ensures
        at.len() == to_verify(candidates, cap).len(),
        at.len() == (match cap {
            Some(limit) if limit < candidates.len() => limit as nat,
            _ => candidates.len(),
        }),
        forall|k: int|
            0 <= k < at.len() ==> 0 <= #[trigger] at[k] < candidates.len() && to_verify(
                candidates,
                cap,
            )[k] == candidates[at[k]],
        forall|k: int, l: int|
            0 <= k < l < at.len() ==> #[trigger] at[k] != #[trigger] at[l]
                && candidates[at[l]].similarity.le(candidates[at[k]].similarity) && (
            candidates[at[k]].similarity.le(candidates[at[l]].similarity) ==> at[k] < at[l]),
        forall|i: int, k: int|
            0 <= i < candidates.len() && !at.contains(i) && 0 <= k < at.len() ==> (
            #[trigger] candidates[i]).similarity.le(candidates[#[trigger] at[k]].similarity),
{
    let keys = candidates.map_values(
        |candidate: LoopCandidatePair| similarity_key(candidate.similarity),
    );
    stable_order_exists(keys);
    let order = stable_order_of(keys);
    let chosen = to_verify(candidates, cap);
    let at = Seq::new(chosen.len(), |k: int| order[k] as int);
    assert forall|k: int, l: int| 0 <= k < l < at.len() implies #[trigger] at[k]
        != #[trigger] at[l] && candidates[at[l]].similarity.le(candidates[at[k]].similarity) && (
    candidates[at[k]].similarity.le(candidates[at[l]].similarity) ==> at[k] < at[l]) by {
        assert(precedes(keys, order[k], order[l]));
    }
    assert forall|i: int, k: int|
        0 <= i < candidates.len() && !at.contains(i) && 0 <= k < at.len() implies (
    #[trigger] candidates[i]).similarity.le(candidates[#[trigger] at[k]].similarity) by {
        crate::order::stable_order_is_complete(keys, order, i as usize);
        let j = order.index_of(i as usize);
        if j < at.len() {
            assert(at[j] == i);
        }
        assert(precedes(keys, order[k], order[j]));
    }
    at
}

/// What passes the travel gate: with a positive minimum exactly the candidates between
/// whose frames at least that much was travelled, in the order given; without one all.
pub proof fn gated_candidates_have_travelled(
    candidates: Seq<LoopCandidatePair>,
    travelled: Seq<Scalar>,
    min_path_length: Option<Scalar>,
) -> (at: Seq<int>)
    requires
        candidates.len() <= usize::MAX,
    ensures
        lists_kept(
            at,
            candidates.len(),
            |k: int|
                min_path_length matches Some(least) ==> (least.le(Scalar::zero()) || least.is_nan()
                    || least.le(travelled[k])),
        ),
        travel_gated(candidates, travelled, min_path_length).len() == at.len(),
        forall|k: int|
            0 <= k < at.len() ==> travel_gated(candidates, travelled, min_path_length)[k]
                == candidates[#[trigger] at[k]],
{
    let kept = |k: int|
        min_path_length matches Some(least) ==> (least.le(Scalar::zero()) || least.is_nan()
            || least.le(travelled[k]));
    let n = candidates.len();
    match min_path_length {
        Some(least) if Scalar::zero().lt(least) => {
            let p = travelled_far(travelled, least);
            lemma_indices_where(n, p);
            let found = indices_where(n, p);
            let at = found.map_values(|i: usize| i as int);
            assert forall|k: int| 0 <= k < at.len() implies 0 <= #[trigger] at[k] < n && kept(
                at[k],
            ) by {
                assert(p(found[k] as int));
            }
            assert forall|i: int| 0 <= i < n && #[trigger] kept(i) implies at.contains(i) by {
                assert(p(i));
                assert(at[found.index_of(i as usize)] == i);
            }
            at
        },
        _ => {
            let at = Seq::new(n, |k: int| k);
            assert forall|i: int| 0 <= i < n && #[trigger] kept(i) implies at.contains(i) by {
                assert(at[i] == i);
            }
            at
        },
    }
}

/// The stereo feature that stands for a keypoint belongs to it, and no later one does; one
/// is found wherever there is one.
pub proof fn the_last_stereo_feature_counts(left_indices: Seq<usize>, keypoint: usize)
    requires
        left_indices.len() <= usize::MAX,
    ensures
        stereo_of(left_indices, keypoint) is Some <==> left_indices.contains(keypoint),
        stereo_of(left_indices, keypoint) matches Some(k) ==> k < left_indices.len()
            && left_indices[k as int] == keypoint && forall|later: int|
            k < later < left_indices.len() ==> left_indices[later] != keypoint,
    decreases left_indices.len(),
{
    if left_indices.len() > 0 {
        let rest = left_indices.drop_last();
        the_last_stereo_feature_counts(rest, keypoint);
        assert forall|later: int| 0 <= later < rest.len() implies left_indices[later]
            == #[trigger] rest[later] by {}
        if left_indices.last() == keypoint {
            assert(left_indices[left_indices.len() - 1] == keypoint);
        } else {
            if let Some(k) = stereo_of(rest, keypoint) {
                assert forall|later: int| k < later < left_indices.len() implies left_indices[later]
                    != keypoint by {
                    if later < rest.len() {
                        assert(rest[later] != keypoint);
                    }
                }
            }
            if rest.contains(keypoint) {
                assert(left_indices[rest.index_of(keypoint)] == keypoint);
            }
            if left_indices.contains(keypoint) {
                assert(rest[left_indices.index_of(keypoint)] == keypoint);
            }
        }
    }
}

/// The correspondences are those of the matches whose older descriptor has a stereo
/// feature and whose newer one is among the keypoints, in the order of the matches; each
/// pairs the newer keypoint with a stereo feature of the older descriptor.
pub proof fn correspondences_follow_matches(
    left_indices: Seq<usize>,
    matches: Seq<DescriptorMatch>,
    keypoints: int,
) -> (at: Seq<int>)
    requires
        left_indices.len() <= usize::MAX,
    ensures
        lists_kept(
            at,
            matches.len(),
            |m: int|
                left_indices.contains(matches[m].train_index) && matches[m].query_index
                    < keypoints,
        ),
        lifted(left_indices, matches, keypoints).len() == at.len(),
        forall|k: int|
            0 <= k < at.len() ==> ({
                let found = lifted(left_indices, matches, keypoints)[k];
                let matched = matches[#[trigger] at[k]];
                &&& found.keypoint_index == matched.query_index
                &&& found.confidence == matched.confidence
                &&& found.stereo_index < left_indices.len()
                &&& left_indices[found.stereo_index as int] == matched.train_index
                &&& forall|later: int|
                    found.stereo_index < later < left_indices.len() ==> left_indices[later]
                        != matched.train_index
            }),
    decreases matches.len(),
{
    let kept = |m: int|
        left_indices.contains(matches[m].train_index) && matches[m].query_index < keypoints;
    if matches.len() == 0 {
        Seq::empty()
    } else {
        let rest = matches.drop_last();
        let kept_before = |m: int|
            left_indices.contains(rest[m].train_index) && rest[m].query_index < keypoints;
        let before = correspondences_follow_matches(left_indices, rest, keypoints);
        the_last_stereo_feature_counts(left_indices, matches.last().train_index);
        assert forall|m: int| 0 <= m < rest.len() implies #[trigger] kept(m) == kept_before(m) by {}
        assert(lists_kept(before, rest.len(), kept));
        crate::sequences::lemma_lists_one_more(before, rest.len(), kept);
        let n = rest.len() as int;
        if kept(n) {
            let at = before.push(n);
            assert(at.last() == n);
            at
        } else {
            before
        }
    }
}

/// The pool holds every descriptor whose index is a multiple of the stride, and no other.
pub proof fn pools_are_strided(counts: Seq<usize>, stride: int, frame: usize, index: usize)
    requires
        counts.len() <= usize::MAX,
        stride > 0,
    ensures
        pooled(counts, stride).contains((frame, index)) <==> frame < counts.len() && index
            < counts[frame as int] && index as int % stride == 0,
        forall|k: int, l: int|
            0 <= k < l < pooled(counts, stride).len() ==> {
                let a = #[trigger] pooled(counts, stride)[k];
                let b = #[trigger] pooled(counts, stride)[l];
                a.0 < b.0 || (a.0 == b.0 && a.1 < b.1)
            },
        forall|k: int|
            0 <= k < pooled(counts, stride).len() ==> (#[trigger] pooled(counts, stride)[k]).0
                < counts.len(),
    decreases counts.len(),
{
    let pool = pooled(counts, stride);
    if counts.len() > 0 {
        let rest = counts.drop_last();
        pools_are_strided(rest, stride, frame, index);
        let f = (counts.len() - 1) as usize;
        let before = pooled(rest, stride);
        let last = strided(f, counts.last() as int, stride);
        lemma_strided(f, counts.last() as int, stride);
        assert(pool == before + last);
        if pool.contains((frame, index)) {
            let k = pool.index_of((frame, index));
            if k < before.len() {
                assert(before[k] == (frame, index));
            } else {
                assert(last[k - before.len()] == (frame, index));
            }
        }
        if frame < counts.len() && index < counts[frame as int] && index as int % stride == 0 {
            if frame < f {
                let k = before.index_of((frame, index));
                assert(pool[k] == (frame, index));
            } else {
                assert(last.contains((frame, index)));
                let k = last.index_of((frame, index));
                assert(pool[before.len() + k] == (frame, index));
            }
        }
    }
}

proof fn lemma_strided(frame: usize, count: int, stride: int)
    requires
        count <= usize::MAX,
        stride > 0,
    ensures
        forall|k: int|
            0 <= k < strided(frame, count, stride).len() ==> ({
                let slot = #[trigger] strided(frame, count, stride)[k];
                slot.0 == frame && slot.1 < count && slot.1 as int % stride == 0
            }),
        forall|index: usize|
            index < count && index as int % stride == 0 ==> #[trigger] strided(
                frame,
                count,
                stride,
            ).contains((frame, index)),
        forall|k: int, l: int|
            0 <= k < l < strided(frame, count, stride).len() ==> (#[trigger] strided(
                frame,
                count,
                stride,
            )[k]).1 < (#[trigger] strided(frame, count, stride)[l]).1,
    decreases count,
{
    if count > 0 {
        lemma_strided(frame, count - 1, stride);
        let before = strided(frame, count - 1, stride);
        let after = strided(frame, count, stride);
        assert forall|index: usize| index < count && index as int % stride == 0 implies
            #[trigger] after.contains((frame, index)) by {
            if index < count - 1 {
                assert(before.contains((frame, index)));
                let k = before.index_of((frame, index));
                assert(after[k] == (frame, index));
            } else {
                assert(after[after.len() - 1] == (frame, index));
            }
        }
    }
}

} // verus!
