//! Loop closure for an open stereo-odometry trajectory.
//!
//! A streaming stereo frontend produces a drift-accumulating open trajectory: nothing ties
//! a revisited place back to its earlier observation. Revisits are proposed by appearance,
//! gated by the distance travelled in between, verified geometrically, and turned into the
//! edges of a pose graph over the whole trajectory.
//!
//! Descriptors, similarities, distances, verifications and the solution of the pose graph
//! come from the functions in [`LoopNumerics`], which the caller supplies.
use crate::geometry::{Point3, Pose};
use crate::loop_candidates::{
    candidates_at, candidates_keep_gap_and_floor, correspondences_follow_matches,
    detect_loop_candidates, gated_candidates_have_travelled, keep_travelled, lifted,
    loop_candidates, loop_constraint, loop_correspondences, pool_cap, pooled, pooled_descriptors,
    pools_are_strided,
    similarity_key, stereo_of, to_verify, travel_gated, travelled_far, verification_order, DescriptorMatch,
    LoopCandidatePair, LoopClosureConstraint, LoopCorrespondence, LoopVerification,
};
use crate::order::{stable_order_exists, stable_order_of};
use crate::scalar::Scalar;
use crate::sequences::{indices_where, lemma_indices_where, lists_kept};
use crate::stereo_landmarks::{Pixel, StereoFeature};
use crate::text::{decimal, decimal_text};
use vstd::prelude::*;

verus! {

/// Configuration of the selection. Single-precision numbers are widened.
#[derive(Clone, Copy, Debug, PartialEq, Eq)]
pub struct VoLoopClosureConfig {
    /// Visual-word count of the vocabulary.
    pub vocab_k: usize,
    /// Iterations of the vocabulary construction.
    pub vocab_iterations: usize,
    /// Seed of the vocabulary construction.
    pub vocab_seed: u64,
    /// Keep every `vocab_descriptor_stride`-th descriptor when pooling.
    pub vocab_descriptor_stride: usize,
    /// Optional cap on the pooled descriptor count.
    pub vocab_max_pool: Option<usize>,
    /// Minimum gap in frames between the two frames of a candidate.
    pub min_frame_gap: usize,
    /// Optional minimum path length in metres between the two frames.
    pub min_path_length: Option<Scalar>,
    /// Minimum similarity of a candidate.
    pub min_similarity: Scalar,
    /// At most this many earlier frames are proposed per frame.
    pub max_candidates_per_frame: usize,
    /// Optional cap on how many candidates are verified.
    pub max_verifications: Option<usize>,
    /// Ratio of the descriptor matcher.
    pub match_ratio: Option<Scalar>,
}

impl Default for VoLoopClosureConfig {
    /// A path length of 5 m, a similarity of 0.20, a match ratio of 0.8.
    fn default() -> (config: Self)
        ensures
            config == (VoLoopClosureConfig {
                vocab_k: 64,
                vocab_iterations: 10,
                vocab_seed: 0xC0FFEE,
                vocab_descriptor_stride: 4,
                vocab_max_pool: Some(60_000usize),
                min_frame_gap: 50,
                min_path_length: Some(Scalar { bits: 0x4014_0000_0000_0000 }),
                min_similarity: Scalar { bits: 0x3FC9_9999_A000_0000 },
                max_candidates_per_frame: 3,
                max_verifications: Some(400usize),
                match_ratio: Some(Scalar { bits: 0x3FE9_9999_A000_0000 }),
            }),
    {
        VoLoopClosureConfig {
            vocab_k: 64,
            vocab_iterations: 10,
            vocab_seed: 0xC0FFEE,
            vocab_descriptor_stride: 4,
            vocab_max_pool: Some(60_000),
            min_frame_gap: 50,
            min_path_length: Some(Scalar { bits: 0x4014_0000_0000_0000 }),
            min_similarity: Scalar { bits: 0x3FC9_9999_A000_0000 },
            max_candidates_per_frame: 3,
            max_verifications: Some(400),
            match_ratio: Some(Scalar { bits: 0x3FE9_9999_A000_0000 }),
        }
    }
}

/// The keypoints of a frame and their descriptors. Single-precision numbers are widened.
#[derive(Clone, Debug, PartialEq, Eq)]
pub struct LoopFeatures {
    pub keypoints: Vec<Pixel>,
    pub descriptors: Vec<Vec<Scalar>>,
}

/// A pixel of the newer frame and the world point that it should show.
#[derive(Clone, Copy, Debug, PartialEq, Eq, Structural)]
pub struct WorldCorrespondence {
    pub pixel: Pixel,
    pub point: Point3,
    pub confidence: Scalar,
}

/// Odometry between two consecutive frames.
#[derive(Clone, Copy, Debug, PartialEq, Eq, Structural)]
pub struct SequentialEdge {
    pub from: u64,
    pub to: u64,
    pub relative_pose: Pose,
}

/// A pose graph over a trajectory, whose first frame is fixed.
#[derive(Clone, Debug, PartialEq, Eq)]
pub struct LoopGraph {
    pub poses: Vec<Pose>,
    pub sequential: Vec<SequentialEdge>,
    pub constraints: Vec<LoopClosureConstraint<Pose>>,
}

/// What the solver made of a pose graph. `G` is its report.
#[derive(Clone, Debug, PartialEq, Eq)]
pub struct LoopSolution<G> {
    /// The optimized poses by frame; none where the graph holds none.
    pub poses: Vec<Option<Pose>>,
    pub report: G,
}

/// Why loops could not be closed. `P` is the error of the pose-graph solver.
#[derive(Clone, Copy, Debug, PartialEq, Eq)]
pub enum VoLoopClosureError<P> {
    /// Poses, features, and stereo depths disagree in length.
    InputLengthMismatch,
    /// Fewer than two frames.
    TooFewFrames(usize),
    /// The vocabulary could not be built.
    VocabularyBuildFailed,
    /// The pose-graph solver failed.
    PoseGraph(P),
}

impl<P> VoLoopClosureError<P> {
    /// A description for people; `solver` describes the error of the solver.
    pub fn message(&self, solver: &str) -> (text: String)
        ensures
            match *self {
                VoLoopClosureError::InputLengthMismatch => text@
                    == "poses, left_features, and stereo_per_frame must have equal length"@,
                VoLoopClosureError::TooFewFrames(n) => text@ == "need at least 2 frames, got "@
                    + decimal(n as nat),
                VoLoopClosureError::VocabularyBuildFailed => text@
                    == "VLAD vocabulary construction failed (too few or zero-dimension descriptors)"@,
                VoLoopClosureError::PoseGraph(_) => text@ == "pose-graph optimization failed: "@
                    + solver@,
            },
    {
        match self {
            VoLoopClosureError::InputLengthMismatch =>
                "poses, left_features, and stereo_per_frame must have equal length".to_owned(),
            VoLoopClosureError::TooFewFrames(n) => String::from_str(
                "need at least 2 frames, got ",
            ).concat(decimal_text(*n as u128).as_str()),
            VoLoopClosureError::VocabularyBuildFailed =>
                "VLAD vocabulary construction failed (too few or zero-dimension descriptors)".to_owned(),
            VoLoopClosureError::PoseGraph(_) => String::from_str(
                "pose-graph optimization failed: ",
            ).concat(solver),
        }
    }
}

/// Checks the lengths of the inputs: first that they agree, and then that there are
/// two frames at least.
pub fn check_inputs<P>(poses: usize, left_features: usize, stereo_per_frame: usize) -> (result: Result<
    (),
    VoLoopClosureError<P>,
>)
    ensures
        result == (if left_features != poses || stereo_per_frame != poses {
            Err::<(), VoLoopClosureError<P>>(VoLoopClosureError::InputLengthMismatch)
        } else if poses < 2 {
            Err(VoLoopClosureError::TooFewFrames(poses))
        } else {
            Ok(())
        }),
{
    if left_features != poses || stereo_per_frame != poses {
        return Err(VoLoopClosureError::InputLengthMismatch);
    }
    if poses < 2 {
        return Err(VoLoopClosureError::TooFewFrames(poses));
    }
    Ok(())
}

/// What loop closure returns. `P` is a pose, `G` the solver's report.
#[derive(Clone, Debug, PartialEq, Eq)]
pub struct VoLoopClosureResult<P, G> {
    /// The trajectory after loop closure, in frame order.
    pub refined_poses: Vec<P>,
    /// The verified constraints.
    pub loop_constraints: Vec<LoopClosureConstraint<P>>,
    /// Number of candidates before verification.
    pub candidate_count: usize,
    /// The solver's report; none when no loop was verified.
    pub gnc: Option<G>,
}

impl<P, G> VoLoopClosureResult<P, G> {
    /// Number of verified loop constraints.
    pub fn verified_count(&self) -> (count: usize)
        ensures
            count == self.loop_constraints.len(),
    {
        self.loop_constraints.len()
    }
}

/// How appearance is described and compared.
pub struct AppearanceNumerics<S, V, D, C> {
    /// The position of the `i`-th of `cap` evenly spread samples of a larger pool:
    /// `i`, pool size, `cap`.
    pub sample: S,
    /// A vocabulary over the pooled descriptors, given by frame and index: frames, pool,
    /// number of words, iterations, seed.
    pub vocabulary: V,
    /// The global descriptor of a frame.
    pub describe: D,
    /// The similarity of two global descriptors.
    pub similarity: C,
}

impl<S, V, D, C> AppearanceNumerics<S, V, D, C> {
    /// The functions take any argument, and samples come from the pool.
    pub open spec fn callable<B>(self) -> bool where
        S: Fn(usize, usize, usize) -> usize,
        V: Fn(&Vec<LoopFeatures>, &Vec<(usize, usize)>, usize, usize, u64) -> Option<B>,
        D: Fn(&Vec<Vec<Scalar>>, &B) -> Vec<Scalar>,
        C: Fn(&Vec<Scalar>, &Vec<Scalar>) -> Scalar,
    {
        &&& forall|i: usize, len: usize, cap: usize| call_requires(self.sample, (i, len, cap))
        &&& forall|i: usize, len: usize, cap: usize, at: usize| #[trigger]
            call_ensures(self.sample, (i, len, cap), at) && i < cap < len ==> at < len
        &&& forall|
            features: Vec<LoopFeatures>,
            pool: Vec<(usize, usize)>,
            words: usize,
            iterations: usize,
            seed: u64,
        | #[trigger]
            call_requires(self.vocabulary, (&features, &pool, words, iterations, seed))
        &&& forall|descriptors: Vec<Vec<Scalar>>, vocabulary: B| #[trigger]
            call_requires(self.describe, (&descriptors, &vocabulary))
        &&& forall|one: Vec<Scalar>, other: Vec<Scalar>|
            call_requires(self.similarity, (&one, &other))
    }
}

/// How travel is measured.
pub struct TravelNumerics<L, A, M> {
    /// The distance of two camera centres.
    pub distance: L,
    pub plus: A,
    pub minus: M,
}

impl<L, A, M> TravelNumerics<L, A, M> where
    L: Fn(&Pose, &Pose) -> Scalar,
    A: Fn(Scalar, Scalar) -> Scalar,
    M: Fn(Scalar, Scalar) -> Scalar,
{
    /// The functions take any argument.
    pub open spec fn callable(self) -> bool {
        &&& forall|one: Pose, other: Pose| call_requires(self.distance, (&one, &other))
        &&& forall|a: Scalar, b: Scalar| call_requires(self.plus, (a, b))
        &&& forall|a: Scalar, b: Scalar| call_requires(self.minus, (a, b))
    }
}

/// How a candidate is verified.
pub struct VerificationNumerics<W, H, Y> {
    /// A point of a camera frame in the world.
    pub to_world: W,
    /// The matches of a newer frame's descriptors with an older frame's, by a ratio test.
    pub matches: H,
    /// The geometric verification of correspondences against the older pose.
    pub verify: Y,
}

impl<W, H, Y> VerificationNumerics<W, H, Y> where
    W: Fn(&Pose, &Point3) -> Point3,
    H: Fn(&Vec<Vec<Scalar>>, &Vec<Vec<Scalar>>, Option<Scalar>) -> Vec<DescriptorMatch>,
    Y: Fn(&Vec<WorldCorrespondence>, &Pose) -> LoopVerification<Pose>,
{
    /// The functions take any argument.
    pub open spec fn callable(self) -> bool {
        &&& forall|pose: Pose, point: Point3| call_requires(self.to_world, (&pose, &point))
        &&& forall|newer: Vec<Vec<Scalar>>, older: Vec<Vec<Scalar>>, ratio: Option<Scalar>|
            call_requires(self.matches, (&newer, &older, ratio))
        &&& forall|list: Vec<WorldCorrespondence>, pose: Pose|
            call_requires(self.verify, (&list, &pose))
    }
}

/// How the pose graph is set up and solved.
pub struct GraphNumerics<R, X> {
    /// The pose of one camera relative to another.
    pub relative: R,
    /// The robust optimization of a pose graph.
    pub solve: X,
}

impl<R, X> GraphNumerics<R, X> {
    /// The functions take any argument.
    pub open spec fn callable<G, E>(self) -> bool where
        R: Fn(&Pose, &Pose) -> Pose,
        X: Fn(&LoopGraph) -> Result<LoopSolution<G>, E>,
    {
        &&& forall|one: Pose, other: Pose| call_requires(self.relative, (&one, &other))
        &&& forall|graph: LoopGraph| call_requires(self.solve, (&graph,))
    }
}

/// The arithmetic that loop closure rests on.
pub struct LoopNumerics<S, V, D, C, L, A, M, W, H, Y, R, X> {
    pub appearance: AppearanceNumerics<S, V, D, C>,
    pub travel: TravelNumerics<L, A, M>,
    pub verification: VerificationNumerics<W, H, Y>,
    pub graph: GraphNumerics<R, X>,
}

impl<S, V, D, C, L, A, M, W, H, Y, R, X> LoopNumerics<S, V, D, C, L, A, M, W, H, Y, R, X> {
    /// The functions take any argument, and samples come from the pool.
    pub open spec fn callable<B, G, E>(self) -> bool where
        S: Fn(usize, usize, usize) -> usize,
        V: Fn(&Vec<LoopFeatures>, &Vec<(usize, usize)>, usize, usize, u64) -> Option<B>,
        D: Fn(&Vec<Vec<Scalar>>, &B) -> Vec<Scalar>,
        C: Fn(&Vec<Scalar>, &Vec<Scalar>) -> Scalar,
        L: Fn(&Pose, &Pose) -> Scalar,
        A: Fn(Scalar, Scalar) -> Scalar,
        M: Fn(Scalar, Scalar) -> Scalar,
        W: Fn(&Pose, &Point3) -> Point3,
        H: Fn(&Vec<Vec<Scalar>>, &Vec<Vec<Scalar>>, Option<Scalar>) -> Vec<DescriptorMatch>,
        Y: Fn(&Vec<WorldCorrespondence>, &Pose) -> LoopVerification<Pose>,
        R: Fn(&Pose, &Pose) -> Pose,
        X: Fn(&LoopGraph) -> Result<LoopSolution<G>, E>,
    {
        &&& self.appearance.callable::<B>()
        &&& self.travel.callable()
        &&& self.verification.callable()
        &&& self.graph.callable::<G, E>()
    }
}

/// The number of descriptors of each frame.
pub open spec fn descriptor_counts(features: Seq<LoopFeatures>) -> Seq<usize> {
    features.map_values(|frame: LoopFeatures| frame.descriptors.len())
}

/// Every `stride`-th descriptor of each frame, where a stride of zero means one.
pub open spec fn strided_pool(features: Seq<LoopFeatures>, stride: usize) -> Seq<(usize, usize)> {
    pooled(
        descriptor_counts(features),
        if stride == 0 {
            1
        } else {
            stride as int
        },
    )
}

/// `pool` are the descriptors that enter the vocabulary: the strided ones, and where they
/// exceed the cap, evenly spread samples of them, at these positions.
pub open spec fn is_pool<S, V, D, C, B>(
    features: Seq<LoopFeatures>,
    config: VoLoopClosureConfig,
    numerics: AppearanceNumerics<S, V, D, C>,
    at: Seq<usize>,
    pool: Seq<(usize, usize)>,
) -> bool where
    S: Fn(usize, usize, usize) -> usize,
    V: Fn(&Vec<LoopFeatures>, &Vec<(usize, usize)>, usize, usize, u64) -> Option<B>,
    D: Fn(&Vec<Vec<Scalar>>, &B) -> Vec<Scalar>,
    C: Fn(&Vec<Scalar>, &Vec<Scalar>) -> Scalar,
{
    let all = strided_pool(features, config.vocab_descriptor_stride);
    match config.vocab_max_pool {
        Some(cap) if 0 < cap < all.len() => {
            &&& all.len() <= usize::MAX
            &&& at.len() == cap
            &&& pool.len() == cap
            &&& forall|i: usize| #![trigger at[i as int]]
                i < cap ==> call_ensures(
                    numerics.sample,
                    (i, all.len() as usize, cap),
                    at[i as int],
                ) && at[i as int] < all.len() && pool[i as int] == all[at[i as int] as int]
        },
        _ => pool == all,
    }
}

fn gather_pool<S, V, D, C, B>(
    features: &Vec<LoopFeatures>,
    config: &VoLoopClosureConfig,
    numerics: &AppearanceNumerics<S, V, D, C>,
) -> (found: (Vec<(usize, usize)>, Ghost<Seq<usize>>)) where
    S: Fn(usize, usize, usize) -> usize,
    V: Fn(&Vec<LoopFeatures>, &Vec<(usize, usize)>, usize, usize, u64) -> Option<B>,
    D: Fn(&Vec<Vec<Scalar>>, &B) -> Vec<Scalar>,
    C: Fn(&Vec<Scalar>, &Vec<Scalar>) -> Scalar,

    requires
        numerics.callable::<B>(),
    ensures
        is_pool::<S, V, D, C, B>(features@, *config, *numerics, found.1@, found.0@),
{
    let mut counts: Vec<usize> = Vec::new();
    let mut frame: usize = 0;
    while frame < features.len()
        invariant
            frame <= features.len(),
            counts@ == descriptor_counts(features@.take(frame as int)),
        decreases features.len() - frame,
    {
        counts.push(features[frame].descriptors.len());
        frame += 1;
        assert(counts@ =~= descriptor_counts(features@.take(frame as int)));
    }
    assert(features@.take(features.len() as int) =~= features@);
    let pool = pooled_descriptors(&counts, config.vocab_descriptor_stride);
    match pool_cap(pool.len(), config.vocab_max_pool) {
        Some(cap) => {
            let mut sampled: Vec<(usize, usize)> = Vec::new();
            let ghost mut at: Seq<usize> = Seq::empty();
            let mut i: usize = 0;
            while i < cap
                invariant
                    i <= cap < pool.len(),
                    numerics.callable::<B>(),
                    at.len() == i,
                    sampled.len() == i,
                    forall|k: usize| #![trigger at[k as int]]
                        k < i ==> call_ensures(
                            numerics.sample,
                            (k, pool.len(), cap),
                            at[k as int],
                        ) && at[k as int] < pool.len() && sampled[k as int]
                            == pool[at[k as int] as int],
                decreases cap - i,
            {
                let position = (numerics.sample)(i, pool.len(), cap);
                sampled.push(pool[position]);
                proof {
                    at = at.push(position);
                }
                i += 1;
            }
            (sampled, Ghost(at))
        },
        None => (pool, Ghost(Seq::empty())),
    }
}

/// `globals` are the global descriptors of the frames under a vocabulary; none where the
/// vocabulary could not be built.
pub open spec fn is_globals<S, V, D, C, B>(
    features: Vec<LoopFeatures>,
    config: VoLoopClosureConfig,
    numerics: AppearanceNumerics<S, V, D, C>,
    at: Seq<usize>,
    pool: Vec<(usize, usize)>,
    vocabulary: Option<B>,
    globals: Seq<Vec<Scalar>>,
) -> bool where
    S: Fn(usize, usize, usize) -> usize,
    V: Fn(&Vec<LoopFeatures>, &Vec<(usize, usize)>, usize, usize, u64) -> Option<B>,
    D: Fn(&Vec<Vec<Scalar>>, &B) -> Vec<Scalar>,
    C: Fn(&Vec<Scalar>, &Vec<Scalar>) -> Scalar,
{
    &&& is_pool::<S, V, D, C, B>(features@, config, numerics, at, pool@)
    &&& call_ensures(
        numerics.vocabulary,
        (&features, &pool, config.vocab_k, config.vocab_iterations, config.vocab_seed),
        vocabulary,
    )
    &&& vocabulary matches Some(vocabulary) ==> {
        &&& globals.len() == features.len()
        &&& forall|i: int|
            0 <= i < features.len() ==> call_ensures(
                numerics.describe,
                (&features[i].descriptors, &vocabulary),
                #[trigger] globals[i],
            )
    }
}

fn describe_frames<S, V, D, C, B>(
    features: &Vec<LoopFeatures>,
    vocabulary: &B,
    numerics: &AppearanceNumerics<S, V, D, C>,
) -> (globals: Vec<Vec<Scalar>>) where
    S: Fn(usize, usize, usize) -> usize,
    V: Fn(&Vec<LoopFeatures>, &Vec<(usize, usize)>, usize, usize, u64) -> Option<B>,
    D: Fn(&Vec<Vec<Scalar>>, &B) -> Vec<Scalar>,
    C: Fn(&Vec<Scalar>, &Vec<Scalar>) -> Scalar,

    requires
        numerics.callable::<B>(),
    ensures
        globals.len() == features.len(),
        forall|i: int|
            0 <= i < features.len() ==> call_ensures(
                numerics.describe,
                (&features[i].descriptors, vocabulary),
                #[trigger] globals[i],
            ),
{
    let mut globals: Vec<Vec<Scalar>> = Vec::new();
    let mut i: usize = 0;
    while i < features.len()
        invariant
            i <= features.len(),
            numerics.callable::<B>(),
            globals.len() == i,
            forall|k: int|
                0 <= k < i ==> call_ensures(
                    numerics.describe,
                    (&features[k].descriptors, vocabulary),
                    #[trigger] globals[k],
                ),
        decreases features.len() - i,
    {
        let descriptor = (numerics.describe)(&features[i].descriptors, vocabulary);
        globals.push(descriptor);
        i += 1;
    }
    globals
}

/// Row `newer` holds the similarities with the frames that are `gap` frames older or more.
pub open spec fn is_similarity_row<S, V, D, C, B>(
    globals: Seq<Vec<Scalar>>,
    gap: int,
    numerics: AppearanceNumerics<S, V, D, C>,
    newer: int,
    row: Seq<Scalar>,
) -> bool where
    S: Fn(usize, usize, usize) -> usize,
    V: Fn(&Vec<LoopFeatures>, &Vec<(usize, usize)>, usize, usize, u64) -> Option<B>,
    D: Fn(&Vec<Vec<Scalar>>, &B) -> Vec<Scalar>,
    C: Fn(&Vec<Scalar>, &Vec<Scalar>) -> Scalar,
{
    &&& row.len() == (if newer >= gap {
        newer - gap + 1
    } else {
        0
    })
    &&& forall|older: int|
        0 <= older < row.len() ==> call_ensures(
            numerics.similarity,
            (&globals[newer], &globals[older]),
            #[trigger] row[older],
        )
}

/// `rows` are the similarities of the frames at least `gap` frames apart.
pub open spec fn is_similarities<S, V, D, C, B>(
    globals: Seq<Vec<Scalar>>,
    gap: int,
    numerics: AppearanceNumerics<S, V, D, C>,
    rows: Seq<Vec<Scalar>>,
) -> bool where
    S: Fn(usize, usize, usize) -> usize,
    V: Fn(&Vec<LoopFeatures>, &Vec<(usize, usize)>, usize, usize, u64) -> Option<B>,
    D: Fn(&Vec<Vec<Scalar>>, &B) -> Vec<Scalar>,
    C: Fn(&Vec<Scalar>, &Vec<Scalar>) -> Scalar,
{
    &&& rows.len() == globals.len()
    &&& forall|newer: int|
        0 <= newer < rows.len() ==> is_similarity_row::<S, V, D, C, B>(
            globals,
            gap,
            numerics,
            newer,
            (#[trigger] rows[newer])@,
        )
}

fn compare_frames<S, V, D, C, B>(
    globals: &Vec<Vec<Scalar>>,
    gap: usize,
    numerics: &AppearanceNumerics<S, V, D, C>,
) -> (rows: Vec<Vec<Scalar>>) where
    S: Fn(usize, usize, usize) -> usize,
    V: Fn(&Vec<LoopFeatures>, &Vec<(usize, usize)>, usize, usize, u64) -> Option<B>,
    D: Fn(&Vec<Vec<Scalar>>, &B) -> Vec<Scalar>,
    C: Fn(&Vec<Scalar>, &Vec<Scalar>) -> Scalar,

    requires
        numerics.callable::<B>(),
        gap > 0,
    ensures
        is_similarities::<S, V, D, C, B>(globals@, gap as int, *numerics, rows@),
{
    let mut rows: Vec<Vec<Scalar>> = Vec::new();
    let mut newer: usize = 0;
    while newer < globals.len()
        invariant
            newer <= globals.len(),
            gap > 0,
            numerics.callable::<B>(),
            rows.len() == newer,
            forall|k: int|
                0 <= k < newer ==> is_similarity_row::<S, V, D, C, B>(
                    globals@,
                    gap as int,
                    *numerics,
                    k,
                    (#[trigger] rows[k])@,
                ),
        decreases globals.len() - newer,
    {
        let count: usize = if newer >= gap {
            newer - gap + 1
        } else {
            0
        };
        let mut row: Vec<Scalar> = Vec::new();
        let mut older: usize = 0;
        while older < count
            invariant
                older <= count <= newer < globals.len(),
                numerics.callable::<B>(),
                row.len() == older,
                forall|k: int|
                    0 <= k < older ==> call_ensures(
                        numerics.similarity,
                        (&globals[newer as int], &globals[k]),
                        #[trigger] row[k],
                    ),
            decreases count - older,
        {
            let similarity = (numerics.similarity)(&globals[newer], &globals[older]);
            row.push(similarity);
            older += 1;
        }
        rows.push(row);
        newer += 1;
    }
    rows
}

/// `candidates` are what appearance proposes: nothing where the gap or the number of
/// candidates per frame is zero.
pub open spec fn is_proposal<S, V, D, C, B>(
    globals: Seq<Vec<Scalar>>,
    config: VoLoopClosureConfig,
    numerics: AppearanceNumerics<S, V, D, C>,
    rows: Seq<Vec<Scalar>>,
    candidates: Seq<LoopCandidatePair>,
) -> bool where
    S: Fn(usize, usize, usize) -> usize,
    V: Fn(&Vec<LoopFeatures>, &Vec<(usize, usize)>, usize, usize, u64) -> Option<B>,
    D: Fn(&Vec<Vec<Scalar>>, &B) -> Vec<Scalar>,
    C: Fn(&Vec<Scalar>, &Vec<Scalar>) -> Scalar,
{
    if config.min_frame_gap == 0 || config.max_candidates_per_frame == 0 {
        candidates.len() == 0
    } else {
        &&& candidates.len() <= usize::MAX
        &&& is_similarities::<S, V, D, C, B>(globals, config.min_frame_gap as int, numerics, rows)
        &&& candidates == loop_candidates(
            rows,
            rows.len(),
            config.min_frame_gap as nat,
            config.min_similarity,
            config.max_candidates_per_frame as int,
        )
    }
}

/// The candidates lie along a trajectory of `n` frames, and their similarities are numbers.
pub open spec fn are_usable(candidates: Seq<LoopCandidatePair>, n: int) -> bool {
    forall|k: int|
        0 <= k < candidates.len() ==> (#[trigger] candidates[k]).older < n && candidates[k].newer
            < n && !candidates[k].similarity.is_nan()
}

fn propose<S, V, D, C, B>(
    globals: &Vec<Vec<Scalar>>,
    config: &VoLoopClosureConfig,
    numerics: &AppearanceNumerics<S, V, D, C>,
) -> (found: (Vec<LoopCandidatePair>, Ghost<Seq<Vec<Scalar>>>)) where
    S: Fn(usize, usize, usize) -> usize,
    V: Fn(&Vec<LoopFeatures>, &Vec<(usize, usize)>, usize, usize, u64) -> Option<B>,
    D: Fn(&Vec<Vec<Scalar>>, &B) -> Vec<Scalar>,
    C: Fn(&Vec<Scalar>, &Vec<Scalar>) -> Scalar,

    requires
        numerics.callable::<B>(),
    ensures
        is_proposal::<S, V, D, C, B>(globals@, *config, *numerics, found.1@, found.0@),
        are_usable(found.0@, globals.len() as int),
{
    if config.min_frame_gap == 0 || config.max_candidates_per_frame == 0 {
        return (Vec::new(), Ghost(Seq::empty()));
    }
    let rows = compare_frames(globals, config.min_frame_gap, numerics);
    assert forall|newer: int| config.min_frame_gap <= newer < rows.len() implies (
    #[trigger] rows[newer]).len() > newer - config.min_frame_gap by {
        assert(is_similarity_row::<S, V, D, C, B>(
            globals@,
            config.min_frame_gap as int,
            *numerics,
            newer,
            rows[newer]@,
        ));
    }
    let candidates = detect_loop_candidates(
        &rows,
        config.min_frame_gap,
        config.min_similarity,
        config.max_candidates_per_frame,
    );
    proof {
        assert forall|k: int| 0 <= k < candidates.len() implies (#[trigger] candidates[k]).older
            < globals.len() && candidates[k].newer < globals.len()
            && !candidates[k].similarity.is_nan() by {
            candidates_keep_gap_and_floor(
                rows@,
                rows.len() as nat,
                config.min_frame_gap as nat,
                config.min_similarity,
                config.max_candidates_per_frame as int,
                k,
            );
        }
    }
    let ghost held = rows@;
    let count: usize = candidates.len();
    assert(candidates@.len() == count);
    (candidates, Ghost(held))
}

/// `path` is the length of the trajectory up to each frame.
pub open spec fn is_path<L, A, M>(
    poses: Seq<Pose>,
    numerics: TravelNumerics<L, A, M>,
    steps: Seq<Scalar>,
    path: Seq<Scalar>,
) -> bool where
    L: Fn(&Pose, &Pose) -> Scalar,
    A: Fn(Scalar, Scalar) -> Scalar,
    M: Fn(Scalar, Scalar) -> Scalar,
{
    &&& path.len() == poses.len()
    &&& steps.len() == poses.len()
    &&& poses.len() > 0 ==> path[0] == Scalar::zero()
    &&& forall|i: int| #![trigger steps[i]]
        0 < i < poses.len() ==> call_ensures(
            numerics.distance,
            (&poses[i], &poses[i - 1]),
            steps[i],
        ) && call_ensures(numerics.plus, (path[i - 1], steps[i]), path[i])
}

/// The length of the trajectory up to each frame.
fn cumulative_path_length<L, A, M>(poses: &Vec<Pose>, numerics: &TravelNumerics<L, A, M>) -> (found: (
    Vec<Scalar>,
    Ghost<Seq<Scalar>>,
)) where
    L: Fn(&Pose, &Pose) -> Scalar,
    A: Fn(Scalar, Scalar) -> Scalar,
    M: Fn(Scalar, Scalar) -> Scalar,

    requires
        numerics.callable(),
    ensures
        is_path(poses@, *numerics, found.1@, found.0@),
{
    let mut path: Vec<Scalar> = Vec::new();
    let ghost mut steps: Seq<Scalar> = Seq::empty();
    let mut i: usize = 0;
    while i < poses.len()
        invariant
            i <= poses.len(),
            numerics.callable(),
            is_path(poses@.take(i as int), *numerics, steps, path@),
        decreases poses.len() - i,
    {
        let ghost walked = steps;
        if i == 0 {
            path.push(Scalar::zero());
            proof {
                steps = steps.push(Scalar::zero());
            }
        } else {
            let step = (numerics.distance)(&poses[i], &poses[i - 1]);
            let total = (numerics.plus)(path[i - 1], step);
            path.push(total);
            proof {
                steps = steps.push(step);
            }
        }
        i += 1;
        proof {
            assert forall|k: int| #![trigger steps[k]]
                0 < k < poses@.take(i as int).len() implies call_ensures(
                numerics.distance,
                (&poses@.take(i as int)[k], &poses@.take(i as int)[k - 1]),
                steps[k],
            ) && call_ensures(numerics.plus, (path@[k - 1], steps[k]), path@[k]) by {
                if k < i - 1 {
                    assert(steps[k] == walked[k]);
                }
            }
        }
    }
    assert(poses@.take(poses.len() as int) =~= poses@);
    (path, Ghost(steps))
}

/// `travelled` are the path lengths between the two frames of each candidate.
pub open spec fn is_travelled<L, A, M>(
    candidates: Seq<LoopCandidatePair>,
    path: Seq<Scalar>,
    numerics: TravelNumerics<L, A, M>,
    travelled: Seq<Scalar>,
) -> bool where
    L: Fn(&Pose, &Pose) -> Scalar,
    A: Fn(Scalar, Scalar) -> Scalar,
    M: Fn(Scalar, Scalar) -> Scalar,
{
    &&& travelled.len() == candidates.len()
    &&& forall|k: int|
        0 <= k < candidates.len() ==> call_ensures(
            numerics.minus,
            (path[candidates[k].newer as int], path[candidates[k].older as int]),
            #[trigger] travelled[k],
        )
}

/// The travel between the two frames of a candidate is required to be positive.
pub open spec fn is_travel_required(min_path_length: Option<Scalar>) -> bool {
    min_path_length matches Some(minimum) && Scalar::zero().lt(minimum)
}

/// `kept` are the candidates between whose frames enough travel lies.
pub open spec fn is_gated<L, A, M>(
    poses: Seq<Pose>,
    candidates: Seq<LoopCandidatePair>,
    min_path_length: Option<Scalar>,
    numerics: TravelNumerics<L, A, M>,
    steps: Seq<Scalar>,
    path: Seq<Scalar>,
    travelled: Seq<Scalar>,
    kept: Seq<LoopCandidatePair>,
) -> bool where
    L: Fn(&Pose, &Pose) -> Scalar,
    A: Fn(Scalar, Scalar) -> Scalar,
    M: Fn(Scalar, Scalar) -> Scalar,
{
    &&& is_travel_required(min_path_length) ==> is_path(poses, numerics, steps, path)
        && is_travelled(candidates, path, numerics, travelled)
    &&& kept == travel_gated(candidates, travelled, min_path_length)
}

fn gate_by_travel<L, A, M>(
    poses: &Vec<Pose>,
    candidates: Vec<LoopCandidatePair>,
    min_path_length: Option<Scalar>,
    numerics: &TravelNumerics<L, A, M>,
) -> (found: (Vec<LoopCandidatePair>, Ghost<(Seq<Scalar>, Seq<Scalar>, Seq<Scalar>)>)) where
    L: Fn(&Pose, &Pose) -> Scalar,
    A: Fn(Scalar, Scalar) -> Scalar,
    M: Fn(Scalar, Scalar) -> Scalar,

    requires
        numerics.callable(),
        are_usable(candidates@, poses.len() as int),
    ensures
        is_gated(
            poses@,
            candidates@,
            min_path_length,
            *numerics,
            found.1@.0,
            found.1@.1,
            found.1@.2,
            found.0@,
        ),
        are_usable(found.0@, poses.len() as int),
{
    let required = match min_path_length {
        Some(minimum) => Scalar::zero().lt(minimum),
        None => false,
    };
    if !required {
        let ghost none: Seq<Scalar> = Seq::empty();
        return (candidates, Ghost((none, none, none)));
    }
    let (path, steps) = cumulative_path_length(poses, numerics);
    let mut travelled: Vec<Scalar> = Vec::new();
    let mut k: usize = 0;
    while k < candidates.len()
        invariant
            k <= candidates.len(),
            numerics.callable(),
            path.len() == poses.len(),
            are_usable(candidates@, poses.len() as int),
            travelled.len() == k,
            forall|m: int|
                0 <= m < k ==> call_ensures(
                    numerics.minus,
                    (path[candidates[m].newer as int], path[candidates[m].older as int]),
                    #[trigger] travelled[m],
                ),
        decreases candidates.len() - k,
    {
        let gap = (numerics.minus)(path[candidates[k].newer], path[candidates[k].older]);
        travelled.push(gap);
        k += 1;
    }
    let ghost listed = candidates@;
    let ghost measured = (steps@, path@, travelled@);
    let kept = keep_travelled(candidates, &travelled, min_path_length);
    proof {
        let minimum = min_path_length->0;
        let p = travelled_far(travelled@, minimum);
        let at = indices_where(listed.len(), p);
        lemma_indices_where(listed.len(), p);
        assert(kept@ == candidates_at(listed, at));
        assert forall|m: int| 0 <= m < kept.len() implies (#[trigger] kept@[m]).older < poses.len()
            && kept@[m].newer < poses.len() && !kept@[m].similarity.is_nan() by {
            assert(kept@[m] == listed[at[m] as int]);
        }
    }
    (kept, Ghost(measured))
}

/// The left keypoint of each stereo feature.
pub open spec fn left_indices(stereo: Seq<StereoFeature>) -> Seq<usize> {
    stereo.map_values(|feature: StereoFeature| feature.left_index)
}

/// `list` pairs the newer frame's pixels with the world points of the older frame's stereo
/// features.
pub open spec fn is_world_list<W, H, Y>(
    pose: Pose,
    keypoints: Seq<Pixel>,
    stereo: Seq<StereoFeature>,
    pairs: Seq<LoopCorrespondence>,
    numerics: VerificationNumerics<W, H, Y>,
    list: Seq<WorldCorrespondence>,
) -> bool where
    W: Fn(&Pose, &Point3) -> Point3,
    H: Fn(&Vec<Vec<Scalar>>, &Vec<Vec<Scalar>>, Option<Scalar>) -> Vec<DescriptorMatch>,
    Y: Fn(&Vec<WorldCorrespondence>, &Pose) -> LoopVerification<Pose>,
{
    &&& list.len() == pairs.len()
    &&& forall|k: int| #![trigger list[k]]
        0 <= k < pairs.len() ==> {
            &&& list[k].pixel == keypoints[pairs[k].keypoint_index as int]
            &&& list[k].confidence == pairs[k].confidence
            &&& call_ensures(
                numerics.to_world,
                (&pose, &stereo[pairs[k].stereo_index as int].point_cam),
                list[k].point,
            )
        }
}

/// `constraint` is what the verification of a candidate gave: none where the older frame
/// has no stereo feature, or where the verification did not succeed.
pub open spec fn is_verified<W, H, Y>(
    poses: Seq<Pose>,
    features: Seq<LoopFeatures>,
    stereo: Seq<Vec<StereoFeature>>,
    ratio: Option<Scalar>,
    candidate: LoopCandidatePair,
    numerics: VerificationNumerics<W, H, Y>,
    matches: Vec<DescriptorMatch>,
    list: Vec<WorldCorrespondence>,
    verification: LoopVerification<Pose>,
    constraint: Option<LoopClosureConstraint<Pose>>,
) -> bool where
    W: Fn(&Pose, &Point3) -> Point3,
    H: Fn(&Vec<Vec<Scalar>>, &Vec<Vec<Scalar>>, Option<Scalar>) -> Vec<DescriptorMatch>,
    Y: Fn(&Vec<WorldCorrespondence>, &Pose) -> LoopVerification<Pose>,
{
    let older = candidate.older as int;
    let newer = candidate.newer as int;
    if stereo[older].len() == 0 {
        constraint is None
    } else {
        &&& call_ensures(
            numerics.matches,
            (&features[newer].descriptors, &features[older].descriptors, ratio),
            matches,
        )
        &&& is_world_list(
            poses[older],
            features[newer].keypoints@,
            stereo[older]@,
            lifted(
                left_indices(stereo[older]@),
                matches@,
                features[newer].keypoints.len() as int,
            ),
            numerics,
            list@,
        )
        &&& call_ensures(numerics.verify, (&list, &poses[older]), verification)
        &&& constraint == (match verification.relative_pose {
            Some(relative_pose) if verification.verified => Some(
                LoopClosureConstraint {
                    from_keyframe_id: candidate.older as u64,
                    to_keyframe_id: candidate.newer as u64,
                    relative_pose,
                    inlier_count: verification.inlier_count,
                    inlier_ratio: verification.inlier_ratio,
                    mean_sampson_error: verification.mean_sampson_error,
                    score: verification.score,
                },
            ),
            _ => None,
        })
    }
}

/// `constraint` is the outcome of verifying a candidate.
pub open spec fn is_outcome<W, H, Y>(
    poses: Seq<Pose>,
    features: Seq<LoopFeatures>,
    stereo: Seq<Vec<StereoFeature>>,
    ratio: Option<Scalar>,
    candidate: LoopCandidatePair,
    numerics: VerificationNumerics<W, H, Y>,
    constraint: Option<LoopClosureConstraint<Pose>>,
) -> bool where
    W: Fn(&Pose, &Point3) -> Point3,
    H: Fn(&Vec<Vec<Scalar>>, &Vec<Vec<Scalar>>, Option<Scalar>) -> Vec<DescriptorMatch>,
    Y: Fn(&Vec<WorldCorrespondence>, &Pose) -> LoopVerification<Pose>,
{
    exists|
        matches: Vec<DescriptorMatch>,
        list: Vec<WorldCorrespondence>,
        verification: LoopVerification<Pose>,
    | #[trigger]
        is_verified(
            poses,
            features,
            stereo,
            ratio,
            candidate,
            numerics,
            matches,
            list,
            verification,
            constraint,
        )
}

proof fn lemma_stereo_of_bound(left: Seq<usize>, keypoint: usize)
    requires
        left.len() <= usize::MAX,
    ensures
        stereo_of(left, keypoint) matches Some(k) ==> k < left.len(),
    decreases left.len(),
{
    if left.len() > 0 && left.last() != keypoint {
        lemma_stereo_of_bound(left.drop_last(), keypoint);
    }
}

proof fn lemma_lifted_bound(left: Seq<usize>, matches: Seq<DescriptorMatch>, keypoints: int)
    requires
        left.len() <= usize::MAX,
    ensures
        forall|k: int|
            0 <= k < lifted(left, matches, keypoints).len() ==> {
                &&& (#[trigger] lifted(left, matches, keypoints)[k]).keypoint_index < keypoints
                &&& lifted(left, matches, keypoints)[k].stereo_index < left.len()
            },
    decreases matches.len(),
{
    if matches.len() > 0 {
        lemma_lifted_bound(left, matches.drop_last(), keypoints);
        lemma_stereo_of_bound(left, matches.last().train_index);
        let rest = lifted(left, matches.drop_last(), keypoints);
        let all = lifted(left, matches, keypoints);
        assert forall|k: int| 0 <= k < all.len() implies (#[trigger] all[k]).keypoint_index
            < keypoints && all[k].stereo_index < left.len() by {
            if k < rest.len() {
                assert(all[k] == rest[k]);
            }
        }
    }
}

/// Verifies one candidate: matches the newer frame's descriptors with the older frame's,
/// lifts the older side to world points by its stereo depth, and checks the geometry.
fn verify_loop_candidate<W, H, Y>(
    poses: &Vec<Pose>,
    features: &Vec<LoopFeatures>,
    stereo: &Vec<Vec<StereoFeature>>,
    ratio: Option<Scalar>,
    candidate: LoopCandidatePair,
    numerics: &VerificationNumerics<W, H, Y>,
) -> (constraint: Option<LoopClosureConstraint<Pose>>) where
    W: Fn(&Pose, &Point3) -> Point3,
    H: Fn(&Vec<Vec<Scalar>>, &Vec<Vec<Scalar>>, Option<Scalar>) -> Vec<DescriptorMatch>,
    Y: Fn(&Vec<WorldCorrespondence>, &Pose) -> LoopVerification<Pose>,

    requires
        numerics.callable(),
        candidate.older < poses.len(),
        candidate.newer < poses.len(),
        features.len() == poses.len(),
        stereo.len() == poses.len(),
    ensures
        is_outcome(poses@, features@, stereo@, ratio, candidate, *numerics, constraint),
{
    let older: usize = candidate.older;
    let newer: usize = candidate.newer;
    let mut left: Vec<usize> = Vec::new();
    let mut k: usize = 0;
    while k < stereo[older].len()
        invariant
            older < stereo.len(),
            k <= stereo[older as int].len(),
            left@ == left_indices(stereo[older as int]@.take(k as int)),
        decreases stereo[older as int].len() - k,
    {
        left.push(stereo[older][k].left_index);
        k += 1;
        assert(left@ =~= left_indices(stereo[older as int]@.take(k as int)));
    }
    assert(stereo[older as int]@.take(stereo[older as int].len() as int)
        =~= stereo[older as int]@);
    if stereo[older].len() == 0 {
        proof {
            let matches: Vec<DescriptorMatch> = arbitrary();
            let list: Vec<WorldCorrespondence> = arbitrary();
            let verification: LoopVerification<Pose> = arbitrary();
            assert(is_verified(
                poses@,
                features@,
                stereo@,
                ratio,
                candidate,
                *numerics,
                matches,
                list,
                verification,
                None,
            ));
        }
        return None;
    }
    let matches = (numerics.matches)(
        &features[newer].descriptors,
        &features[older].descriptors,
        ratio,
    );
    let pairs = match loop_correspondences(&left, &matches, features[newer].keypoints.len()) {
        Some(pairs) => pairs,
        None => Vec::new(),
    };
    proof {
        lemma_lifted_bound(left@, matches@, features[newer as int].keypoints.len() as int);
    }
    let mut list: Vec<WorldCorrespondence> = Vec::new();
    let mut i: usize = 0;
    while i < pairs.len()
        invariant
            i <= pairs.len(),
            numerics.callable(),
            older < poses.len(),
            newer < poses.len(),
            features.len() == poses.len(),
            stereo.len() == poses.len(),
            forall|m: int|
                0 <= m < pairs.len() ==> {
                    &&& (#[trigger] pairs[m]).keypoint_index < features[newer as int].keypoints.len()
                    &&& pairs[m].stereo_index < stereo[older as int].len()
                },
            is_world_list(
                poses[older as int],
                features[newer as int].keypoints@,
                stereo[older as int]@,
                pairs@.take(i as int),
                *numerics,
                list@,
            ),
        decreases pairs.len() - i,
    {
        let pair = pairs[i];
        let ghost before = list@;
        let point = (numerics.to_world)(
            &poses[older],
            &stereo[older][pair.stereo_index].point_cam,
        );
        list.push(
            WorldCorrespondence {
                pixel: features[newer].keypoints[pair.keypoint_index],
                point,
                confidence: pair.confidence,
            },
        );
        i += 1;
        proof {
            assert forall|m: int| #![trigger list@[m]]
                0 <= m < pairs@.take(i as int).len() implies {
                &&& list@[m].pixel
                    == features[newer as int].keypoints@[pairs@.take(i as int)[m].keypoint_index as int]
                &&& list@[m].confidence == pairs@.take(i as int)[m].confidence
                &&& call_ensures(
                    numerics.to_world,
                    (
                        &poses[older as int],
                        &stereo[older as int]@[pairs@.take(
                            i as int,
                        )[m].stereo_index as int].point_cam,
                    ),
                    list@[m].point,
                )
            } by {
                if m < i - 1 {
                    assert(list@[m] == before[m]);
                    assert(pairs@.take(i - 1)[m] == pairs@[m]);
                }
            }
        }
    }
    assert(pairs@.take(pairs.len() as int) =~= pairs@);
    let verification = (numerics.verify)(&list, &poses[older]);
    let constraint = loop_constraint(candidate, verification);
    assert(is_verified(
        poses@,
        features@,
        stereo@,
        ratio,
        candidate,
        *numerics,
        matches,
        list,
        verification,
        constraint,
    ));
    constraint
}

/// The constraints of the candidates that were verified, in order.
pub open spec fn verified(
    outcomes: Seq<Option<LoopClosureConstraint<Pose>>>,
) -> Seq<LoopClosureConstraint<Pose>>
    decreases outcomes.len(),
{
    if outcomes.len() == 0 {
        Seq::empty()
    } else {
        match outcomes.last() {
            Some(constraint) => verified(outcomes.drop_last()).push(constraint),
            None => verified(outcomes.drop_last()),
        }
    }
}

/// `outcomes` are those of verifying the candidates.
pub open spec fn are_outcomes<W, H, Y>(
    poses: Seq<Pose>,
    features: Seq<LoopFeatures>,
    stereo: Seq<Vec<StereoFeature>>,
    ratio: Option<Scalar>,
    candidates: Seq<LoopCandidatePair>,
    numerics: VerificationNumerics<W, H, Y>,
    outcomes: Seq<Option<LoopClosureConstraint<Pose>>>,
) -> bool where
    W: Fn(&Pose, &Point3) -> Point3,
    H: Fn(&Vec<Vec<Scalar>>, &Vec<Vec<Scalar>>, Option<Scalar>) -> Vec<DescriptorMatch>,
    Y: Fn(&Vec<WorldCorrespondence>, &Pose) -> LoopVerification<Pose>,
{
    &&& outcomes.len() == candidates.len()
    &&& forall|k: int|
        0 <= k < candidates.len() ==> is_outcome(
            poses,
            features,
            stereo,
            ratio,
            candidates[k],
            numerics,
            #[trigger] outcomes[k],
        )
}

fn verify_candidates<W, H, Y>(
    poses: &Vec<Pose>,
    features: &Vec<LoopFeatures>,
    stereo: &Vec<Vec<StereoFeature>>,
    ratio: Option<Scalar>,
    candidates: &Vec<LoopCandidatePair>,
    numerics: &VerificationNumerics<W, H, Y>,
) -> (found: (
    Vec<LoopClosureConstraint<Pose>>,
    Ghost<Seq<Option<LoopClosureConstraint<Pose>>>>,
)) where
    W: Fn(&Pose, &Point3) -> Point3,
    H: Fn(&Vec<Vec<Scalar>>, &Vec<Vec<Scalar>>, Option<Scalar>) -> Vec<DescriptorMatch>,
    Y: Fn(&Vec<WorldCorrespondence>, &Pose) -> LoopVerification<Pose>,

    requires
        numerics.callable(),
        are_usable(candidates@, poses.len() as int),
        features.len() == poses.len(),
        stereo.len() == poses.len(),
    ensures
        are_outcomes(
            poses@,
            features@,
            stereo@,
            ratio,
            candidates@,
            *numerics,
            found.1@,
        ),
        found.0@ == verified(found.1@),
{
    let mut constraints: Vec<LoopClosureConstraint<Pose>> = Vec::new();
    let ghost mut outcomes: Seq<Option<LoopClosureConstraint<Pose>>> = Seq::empty();
    let mut k: usize = 0;
    while k < candidates.len()
        invariant
            k <= candidates.len(),
            numerics.callable(),
            are_usable(candidates@, poses.len() as int),
            features.len() == poses.len(),
            stereo.len() == poses.len(),
            outcomes.len() == k,
            forall|m: int|
                0 <= m < k ==> is_outcome(
                    poses@,
                    features@,
                    stereo@,
                    ratio,
                    candidates[m],
                    *numerics,
                    #[trigger] outcomes[m],
                ),
            constraints@ == verified(outcomes),
        decreases candidates.len() - k,
    {
        let outcome = verify_loop_candidate(
            poses,
            features,
            stereo,
            ratio,
            candidates[k],
            numerics,
        );
        proof {
            assert(outcomes.push(outcome).drop_last() =~= outcomes);
            outcomes = outcomes.push(outcome);
        }
        match outcome {
            Some(constraint) => {
                constraints.push(constraint);
            },
            None => {},
        }
        k += 1;
    }
    (constraints, Ghost(outcomes))
}

/// `graph` is the pose graph of a trajectory and its verified constraints.
pub open spec fn is_loop_graph<R, X>(
    poses: Seq<Pose>,
    constraints: Seq<LoopClosureConstraint<Pose>>,
    numerics: GraphNumerics<R, X>,
    graph: LoopGraph,
) -> bool where R: Fn(&Pose, &Pose) -> Pose {
    &&& graph.poses@ == poses
    &&& graph.constraints@ == constraints
    &&& graph.sequential.len() == poses.len() - 1
    &&& forall|k: int| #![trigger graph.sequential[k]]
        0 <= k < poses.len() - 1 ==> {
            &&& graph.sequential[k].from == k
            &&& graph.sequential[k].to == k + 1
            &&& call_ensures(
                numerics.relative,
                (&poses[k], &poses[k + 1]),
                graph.sequential[k].relative_pose,
            )
        }
}

fn build_graph<R, X, G, E>(
    poses: &Vec<Pose>,
    constraints: Vec<LoopClosureConstraint<Pose>>,
    numerics: &GraphNumerics<R, X>,
) -> (graph: LoopGraph) where
    R: Fn(&Pose, &Pose) -> Pose,
    X: Fn(&LoopGraph) -> Result<LoopSolution<G>, E>,

    requires
        numerics.callable::<G, E>(),
        poses.len() > 0,
    ensures
        is_loop_graph(poses@, constraints@, *numerics, graph),
{
    let copied = copy_poses(poses);
    let mut sequential: Vec<SequentialEdge> = Vec::new();
    let mut k: usize = 0;
    while k < poses.len() - 1
        invariant
            0 < poses.len(),
            k <= poses.len() - 1,
            numerics.callable::<G, E>(),
            sequential.len() == k,
            forall|m: int| #![trigger sequential[m]]
                0 <= m < k ==> {
                    &&& sequential[m].from == m
                    &&& sequential[m].to == m + 1
                    &&& call_ensures(
                        numerics.relative,
                        (&poses[m], &poses[m + 1]),
                        sequential[m].relative_pose,
                    )
                },
        decreases poses.len() - 1 - k,
    {
        let relative_pose = (numerics.relative)(&poses[k], &poses[k + 1]);
        sequential.push(SequentialEdge { from: k as u64, to: (k + 1) as u64, relative_pose });
        k += 1;
    }
    LoopGraph { poses: copied, sequential, constraints }
}

fn copy_poses(poses: &Vec<Pose>) -> (copy: Vec<Pose>)
    ensures
        copy@ == poses@,
{
    let mut copy: Vec<Pose> = Vec::new();
    let mut k: usize = 0;
    while k < poses.len()
        invariant
            k <= poses.len(),
            copy@ == poses@.take(k as int),
        decreases poses.len() - k,
    {
        copy.push(poses[k]);
        k += 1;
        assert(copy@ =~= poses@.take(k as int));
    }
    assert(poses@.take(poses.len() as int) =~= poses@);
    copy
}

/// Each frame's optimized pose, or its input pose where the graph holds none.
pub open spec fn refined(poses: Seq<Pose>, optimized: Seq<Option<Pose>>) -> Seq<Pose> {
    Seq::new(
        poses.len(),
        |k: int|
            if k < optimized.len() {
                match optimized[k] {
                    Some(pose) => pose,
                    None => poses[k],
                }
            } else {
                poses[k]
            },
    )
}

fn refine_poses(poses: &Vec<Pose>, optimized: &Vec<Option<Pose>>) -> (list: Vec<Pose>)
    ensures
        list@ == refined(poses@, optimized@),
{
    let mut list: Vec<Pose> = Vec::new();
    let mut k: usize = 0;
    while k < poses.len()
        invariant
            k <= poses.len(),
            list@ == refined(poses@, optimized@).take(k as int),
        decreases poses.len() - k,
    {
        let mut pose = poses[k];
        if k < optimized.len() {
            if let Some(found) = optimized[k] {
                pose = found;
            }
        }
        list.push(pose);
        k += 1;
        assert(list@ =~= refined(poses@, optimized@).take(k as int));
    }
    assert(refined(poses@, optimized@).take(poses.len() as int) =~= refined(poses@, optimized@));
    list
}

/// `result` is what the constraints make of a trajectory: the input where there are none,
/// and what the solver made of the pose graph otherwise.
pub open spec fn is_solved<R, X, G, E>(
    poses: Seq<Pose>,
    constraints: Seq<LoopClosureConstraint<Pose>>,
    candidate_count: int,
    numerics: GraphNumerics<R, X>,
    graph: LoopGraph,
    solution: Result<LoopSolution<G>, E>,
    result: Result<VoLoopClosureResult<Pose, G>, VoLoopClosureError<E>>,
) -> bool where
    R: Fn(&Pose, &Pose) -> Pose,
    X: Fn(&LoopGraph) -> Result<LoopSolution<G>, E>,
{
    if constraints.len() == 0 {
        result matches Ok(found) && {
            &&& found.refined_poses@ == poses
            &&& found.loop_constraints.len() == 0
            &&& found.candidate_count == candidate_count
            &&& found.gnc is None
        }
    } else {
        &&& is_loop_graph(poses, constraints, numerics, graph)
        &&& call_ensures(numerics.solve, (&graph,), solution)
        &&& match solution {
            Err(error) => result == Err::<VoLoopClosureResult<Pose, G>, _>(
                VoLoopClosureError::PoseGraph(error),
            ),
            Ok(solution) => result matches Ok(found) && {
                &&& found.refined_poses@ == refined(poses, solution.poses@)
                &&& found.loop_constraints@ == constraints
                &&& found.candidate_count == candidate_count
                &&& found.gnc == Some(solution.report)
            },
        }
    }
}

/// `result` is what the constraints make of a trajectory.
pub open spec fn is_settled<R, X, G, E>(
    poses: Seq<Pose>,
    constraints: Seq<LoopClosureConstraint<Pose>>,
    candidate_count: int,
    numerics: GraphNumerics<R, X>,
    result: Result<VoLoopClosureResult<Pose, G>, VoLoopClosureError<E>>,
) -> bool where
    R: Fn(&Pose, &Pose) -> Pose,
    X: Fn(&LoopGraph) -> Result<LoopSolution<G>, E>,
{
    exists|graph: LoopGraph, solution: Result<LoopSolution<G>, E>| #[trigger]
        is_solved::<R, X, G, E>(
            poses,
            constraints,
            candidate_count,
            numerics,
            graph,
            solution,
            result,
        )
}

fn settle<R, X, G, E>(
    poses: &Vec<Pose>,
    constraints: Vec<LoopClosureConstraint<Pose>>,
    candidate_count: usize,
    numerics: &GraphNumerics<R, X>,
) -> (result: Result<VoLoopClosureResult<Pose, G>, VoLoopClosureError<E>>) where
    R: Fn(&Pose, &Pose) -> Pose,
    X: Fn(&LoopGraph) -> Result<LoopSolution<G>, E>,

    requires
        numerics.callable::<G, E>(),
        poses.len() > 0,
    ensures
        is_settled::<R, X, G, E>(
            poses@,
            constraints@,
            candidate_count as int,
            *numerics,
            result,
        ),
{
    let ghost listed = constraints@;
    if constraints.len() == 0 {
        let result = Ok(
            VoLoopClosureResult {
                refined_poses: copy_poses(poses),
                loop_constraints: constraints,
                candidate_count,
                gnc: None,
            },
        );
        proof {
            let graph: LoopGraph = arbitrary();
            let solution: Result<LoopSolution<G>, E> = arbitrary();
            assert(is_solved::<R, X, G, E>(
                poses@,
                listed,
                candidate_count as int,
                *numerics,
                graph,
                solution,
                result,
            ));
        }
        return result;
    }
    let graph = build_graph(poses, constraints, numerics);
    let solution = (numerics.solve)(&graph);
    let ghost held = graph;
    let ghost solved = solution;
    let result = match solution {
        Ok(solution) => Ok(
            VoLoopClosureResult {
                refined_poses: refine_poses(poses, &solution.poses),
                loop_constraints: graph.constraints,
                candidate_count,
                gnc: Some(solution.report),
            },
        ),
        Err(error) => Err(VoLoopClosureError::PoseGraph(error)),
    };
    assert(is_solved::<R, X, G, E>(
        poses@,
        listed,
        candidate_count as int,
        *numerics,
        held,
        solved,
        result,
    ));
    result
}

/// What was measured and decided on the way to a closed trajectory.
pub struct LoopTrace<B> {
    /// Positions of the sampled descriptors in the strided pool.
    pub at: Seq<usize>,
    pub pool: Vec<(usize, usize)>,
    pub vocabulary: Option<B>,
    pub globals: Seq<Vec<Scalar>>,
    /// Similarities by newer and older frame.
    pub rows: Seq<Vec<Scalar>>,
    pub proposed: Seq<LoopCandidatePair>,
    /// Distances between consecutive frames.
    pub steps: Seq<Scalar>,
    pub path: Seq<Scalar>,
    pub travelled: Seq<Scalar>,
    /// The candidates that pass the travel gate.
    pub candidates: Seq<LoopCandidatePair>,
    pub outcomes: Seq<Option<LoopClosureConstraint<Pose>>>,
}

/// `result` is what this trace leads to.
pub open spec fn is_closed<S, V, D, C, B, L, A, M, W, H, Y, R, X, G, E>(
    poses: Seq<Pose>,
    features: Vec<LoopFeatures>,
    stereo: Seq<Vec<StereoFeature>>,
    config: VoLoopClosureConfig,
    numerics: LoopNumerics<S, V, D, C, L, A, M, W, H, Y, R, X>,
    trace: LoopTrace<B>,
    result: Result<VoLoopClosureResult<Pose, G>, VoLoopClosureError<E>>,
) -> bool where
    S: Fn(usize, usize, usize) -> usize,
    V: Fn(&Vec<LoopFeatures>, &Vec<(usize, usize)>, usize, usize, u64) -> Option<B>,
    D: Fn(&Vec<Vec<Scalar>>, &B) -> Vec<Scalar>,
    C: Fn(&Vec<Scalar>, &Vec<Scalar>) -> Scalar,
    L: Fn(&Pose, &Pose) -> Scalar,
    A: Fn(Scalar, Scalar) -> Scalar,
    M: Fn(Scalar, Scalar) -> Scalar,
    W: Fn(&Pose, &Point3) -> Point3,
    H: Fn(&Vec<Vec<Scalar>>, &Vec<Vec<Scalar>>, Option<Scalar>) -> Vec<DescriptorMatch>,
    Y: Fn(&Vec<WorldCorrespondence>, &Pose) -> LoopVerification<Pose>,
    R: Fn(&Pose, &Pose) -> Pose,
    X: Fn(&LoopGraph) -> Result<LoopSolution<G>, E>,
{
    &&& is_globals::<S, V, D, C, B>(
        features,
        config,
        numerics.appearance,
        trace.at,
        trace.pool,
        trace.vocabulary,
        trace.globals,
    )
    &&& if trace.vocabulary is None {
        result == Err::<VoLoopClosureResult<Pose, G>, VoLoopClosureError<E>>(
            VoLoopClosureError::VocabularyBuildFailed,
        )
    } else {
        &&& is_proposal::<S, V, D, C, B>(
            trace.globals,
            config,
            numerics.appearance,
            trace.rows,
            trace.proposed,
        )
        &&& is_gated(
            poses,
            trace.proposed,
            config.min_path_length,
            numerics.travel,
            trace.steps,
            trace.path,
            trace.travelled,
            trace.candidates,
        )
        &&& are_outcomes(
            poses,
            features@,
            stereo,
            config.match_ratio,
            to_verify(trace.candidates, config.max_verifications),
            numerics.verification,
            trace.outcomes,
        )
        &&& is_settled::<R, X, G, E>(
            poses,
            verified(trace.outcomes),
            trace.candidates.len() as int,
            numerics.graph,
            result,
        )
    }
}

/// Closes the loops of an open trajectory. `poses`, `left_features` and
/// `stereo_per_frame` hold one entry for each frame. Without a verified loop the
/// trajectory comes back unchanged.
pub fn close_loops_on_vo_trajectory<S, V, D, C, B, L, A, M, W, H, Y, R, X, G, E>(
    poses: &Vec<Pose>,
    left_features: &Vec<LoopFeatures>,
    stereo_per_frame: &Vec<Vec<StereoFeature>>,
    config: &VoLoopClosureConfig,
    numerics: &LoopNumerics<S, V, D, C, L, A, M, W, H, Y, R, X>,
) -> (result: Result<VoLoopClosureResult<Pose, G>, VoLoopClosureError<E>>) where
    S: Fn(usize, usize, usize) -> usize,
    V: Fn(&Vec<LoopFeatures>, &Vec<(usize, usize)>, usize, usize, u64) -> Option<B>,
    D: Fn(&Vec<Vec<Scalar>>, &B) -> Vec<Scalar>,
    C: Fn(&Vec<Scalar>, &Vec<Scalar>) -> Scalar,
    L: Fn(&Pose, &Pose) -> Scalar,
    A: Fn(Scalar, Scalar) -> Scalar,
    M: Fn(Scalar, Scalar) -> Scalar,
    W: Fn(&Pose, &Point3) -> Point3,
    H: Fn(&Vec<Vec<Scalar>>, &Vec<Vec<Scalar>>, Option<Scalar>) -> Vec<DescriptorMatch>,
    Y: Fn(&Vec<WorldCorrespondence>, &Pose) -> LoopVerification<Pose>,
    R: Fn(&Pose, &Pose) -> Pose,
    X: Fn(&LoopGraph) -> Result<LoopSolution<G>, E>,

    requires
        numerics.callable::<B, G, E>(),
    ensures
        left_features.len() != poses.len() || stereo_per_frame.len() != poses.len() ==> result
            == Err::<VoLoopClosureResult<Pose, G>, VoLoopClosureError<E>>(
            VoLoopClosureError::InputLengthMismatch,
        ),
        left_features.len() == poses.len() && stereo_per_frame.len() == poses.len() && poses.len()
            < 2 ==> result == Err::<VoLoopClosureResult<Pose, G>, VoLoopClosureError<E>>(
            VoLoopClosureError::TooFewFrames(poses.len()),
        ),
        left_features.len() == poses.len() && stereo_per_frame.len() == poses.len() && poses.len()
            >= 2 ==> exists|trace: LoopTrace<B>| #[trigger]
            is_closed::<S, V, D, C, B, L, A, M, W, H, Y, R, X, G, E>(
                poses@,
                *left_features,
                stereo_per_frame@,
                *config,
                *numerics,
                trace,
                result,
            ),
{
    match check_inputs::<E>(poses.len(), left_features.len(), stereo_per_frame.len()) {
        Ok(()) => {},
        Err(error) => {
            return Err(error);
        },
    }
    let (pool, at) = gather_pool(left_features, config, &numerics.appearance);
    let built = (numerics.appearance.vocabulary)(
        left_features,
        &pool,
        config.vocab_k,
        config.vocab_iterations,
        config.vocab_seed,
    );
    let ghost mut trace = LoopTrace {
        at: at@,
        pool,
        vocabulary: built,
        globals: Seq::empty(),
        rows: Seq::empty(),
        proposed: Seq::empty(),
        steps: Seq::empty(),
        path: Seq::empty(),
        travelled: Seq::empty(),
        candidates: Seq::empty(),
        outcomes: Seq::empty(),
    };
    let vocabulary = match built {
        Some(vocabulary) => vocabulary,
        None => {
            let result: Result<VoLoopClosureResult<Pose, G>, VoLoopClosureError<E>> = Err(
                VoLoopClosureError::VocabularyBuildFailed,
            );
            assert(is_closed::<S, V, D, C, B, L, A, M, W, H, Y, R, X, G, E>(
                poses@,
                *left_features,
                stereo_per_frame@,
                *config,
                *numerics,
                trace,
                result,
            ));
            return result;
        },
    };
    let globals = describe_frames(left_features, &vocabulary, &numerics.appearance);
    let (proposed, rows) = propose(&globals, config, &numerics.appearance);
    let ghost listed = proposed@;
    let (candidates, measured) = gate_by_travel(
        poses,
        proposed,
        config.min_path_length,
        &numerics.travel,
    );
    let candidate_count: usize = candidates.len();
    let ordered = verification_order(&candidates, config.max_verifications);
    proof {
        lemma_order_is_usable(candidates@, config.max_verifications, poses.len() as int);
    }
    let (constraints, outcomes) = verify_candidates(
        poses,
        left_features,
        stereo_per_frame,
        config.match_ratio,
        &ordered,
        &numerics.verification,
    );
    let result = settle(poses, constraints, candidate_count, &numerics.graph);
    proof {
        trace.globals = globals@;
        trace.rows = rows@;
        trace.proposed = listed;
        trace.steps = measured@.0;
        trace.path = measured@.1;
        trace.travelled = measured@.2;
        trace.candidates = candidates@;
        trace.outcomes = outcomes@;
        assert(is_closed::<S, V, D, C, B, L, A, M, W, H, Y, R, X, G, E>(
            poses@,
            *left_features,
            stereo_per_frame@,
            *config,
            *numerics,
            trace,
            result,
        ));
    }
    result
}

proof fn lemma_order_is_usable(candidates: Seq<LoopCandidatePair>, cap: Option<usize>, n: int)
    requires
        candidates.len() <= usize::MAX,
        are_usable(candidates, n),
    ensures
        are_usable(to_verify(candidates, cap), n),
{
    let keys = candidates.map_values(
        |candidate: LoopCandidatePair| similarity_key(candidate.similarity),
    );
    stable_order_exists(keys);
    let order = stable_order_of(keys);
    assert forall|k: int| 0 <= k < to_verify(candidates, cap).len() implies (#[trigger] to_verify(
        candidates,
        cap,
    )[k]).older < n && to_verify(candidates, cap)[k].newer < n && !to_verify(
        candidates,
        cap,
    )[k].similarity.is_nan() by {
        assert(to_verify(candidates, cap)[k] == candidates[order[k] as int]);
    }
}

proof fn lemma_verified_comes_from(outcomes: Seq<Option<LoopClosureConstraint<Pose>>>, k: int) -> (m:
    int)
    requires
        0 <= k < verified(outcomes).len(),
    ensures
        0 <= m < outcomes.len(),
        outcomes[m] == Some(verified(outcomes)[k]),
    decreases outcomes.len(),
{
    let rest = verified(outcomes.drop_last());
    if k < rest.len() {
        lemma_verified_comes_from(outcomes.drop_last(), k)
    } else {
        outcomes.len() - 1
    }
}

proof fn lemma_verified_bound(outcomes: Seq<Option<LoopClosureConstraint<Pose>>>)
    ensures
        verified(outcomes).len() <= outcomes.len(),
    decreases outcomes.len(),
{
    if outcomes.len() > 0 {
        lemma_verified_bound(outcomes.drop_last());
    }
}

/// The candidates keep the gap along a trajectory of `n` frames.
pub open spec fn keep_gap(candidates: Seq<LoopCandidatePair>, gap: int, n: int) -> bool {
    forall|k: int|
        0 <= k < candidates.len() ==> (#[trigger] candidates[k]).older + gap <= candidates[k].newer
            < n
}

/// Every loop ties together frames of the trajectory that are at least the minimum gap
/// apart, from the older to the newer; there are no more loops than candidates, nor more
/// than may be verified; and every frame keeps a pose.
pub proof fn closed_loops_span_the_gap<S, V, D, C, B, L, A, M, W, H, Y, R, X, G, E>(
    poses: Seq<Pose>,
    features: Vec<LoopFeatures>,
    stereo: Seq<Vec<StereoFeature>>,
    config: VoLoopClosureConfig,
    numerics: LoopNumerics<S, V, D, C, L, A, M, W, H, Y, R, X>,
    trace: LoopTrace<B>,
    found: VoLoopClosureResult<Pose, G>,
) where
    S: Fn(usize, usize, usize) -> usize,
    V: Fn(&Vec<LoopFeatures>, &Vec<(usize, usize)>, usize, usize, u64) -> Option<B>,
    D: Fn(&Vec<Vec<Scalar>>, &B) -> Vec<Scalar>,
    C: Fn(&Vec<Scalar>, &Vec<Scalar>) -> Scalar,
    L: Fn(&Pose, &Pose) -> Scalar,
    A: Fn(Scalar, Scalar) -> Scalar,
    M: Fn(Scalar, Scalar) -> Scalar,
    W: Fn(&Pose, &Point3) -> Point3,
    H: Fn(&Vec<Vec<Scalar>>, &Vec<Vec<Scalar>>, Option<Scalar>) -> Vec<DescriptorMatch>,
    Y: Fn(&Vec<WorldCorrespondence>, &Pose) -> LoopVerification<Pose>,
    R: Fn(&Pose, &Pose) -> Pose,
    X: Fn(&LoopGraph) -> Result<LoopSolution<G>, E>,

    requires
        features.len() == poses.len(),
        is_closed::<S, V, D, C, B, L, A, M, W, H, Y, R, X, G, E>(
            poses,
            features,
            stereo,
            config,
            numerics,
            trace,
            Ok(found),
        ),
    ensures
        found.refined_poses.len() == poses.len(),
        found.loop_constraints.len() <= found.candidate_count,
        config.max_verifications matches Some(cap) ==> found.loop_constraints.len() <= cap,
        forall|k: int|
            0 <= k < found.loop_constraints.len() ==> {
                &&& (#[trigger] found.loop_constraints[k]).from_keyframe_id + config.min_frame_gap
                    <= found.loop_constraints[k].to_keyframe_id
                &&& found.loop_constraints[k].to_keyframe_id < poses.len()
            },
{
    let n = poses.len() as int;
    let gap = config.min_frame_gap as int;
    let constraints = verified(trace.outcomes);
    let ordered = to_verify(trace.candidates, config.max_verifications);
    lemma_verified_bound(trace.outcomes);
    assert(found.loop_constraints@ == constraints) by {
        let (graph, solution) = choose|graph: LoopGraph, solution: Result<LoopSolution<G>, E>|
            #[trigger]
            is_solved::<R, X, G, E>(
                poses,
                constraints,
                trace.candidates.len() as int,
                numerics.graph,
                graph,
                solution,
                Ok(found),
            );
        if constraints.len() == 0 {
            assert(found.loop_constraints@ =~= constraints);
        }
    }
    assert(keep_gap(trace.proposed, gap, n)) by {
        assert forall|k: int| 0 <= k < trace.proposed.len() implies (
        #[trigger] trace.proposed[k]).older + gap <= trace.proposed[k].newer < n by {
            candidates_keep_gap_and_floor(
                trace.rows,
                trace.rows.len(),
                config.min_frame_gap as nat,
                config.min_similarity,
                config.max_candidates_per_frame as int,
                k,
            );
        }
    }
    assert(keep_gap(trace.candidates, gap, n)) by {
        if is_travel_required(config.min_path_length) {
            let p = travelled_far(trace.travelled, config.min_path_length->0);
            let at = indices_where(trace.proposed.len(), p);
            lemma_indices_where(trace.proposed.len(), p);
            assert forall|k: int| 0 <= k < trace.candidates.len() implies (
            #[trigger] trace.candidates[k]).older + gap <= trace.candidates[k].newer < n by {
                assert(trace.candidates[k] == trace.proposed[at[k] as int]);
            }
        }
    }
    let keys = trace.candidates.map_values(
        |candidate: LoopCandidatePair| similarity_key(candidate.similarity),
    );
    stable_order_exists(keys);
    let order = stable_order_of(keys);
    assert forall|k: int| 0 <= k < found.loop_constraints.len() implies (
    #[trigger] found.loop_constraints[k]).from_keyframe_id + config.min_frame_gap
        <= found.loop_constraints[k].to_keyframe_id && found.loop_constraints[k].to_keyframe_id
        < n by {
        let m = lemma_verified_comes_from(trace.outcomes, k);
        assert(ordered[m] == trace.candidates[order[m] as int]);
        assert(is_outcome(
            poses,
            features@,
            stereo,
            config.match_ratio,
            ordered[m],
            numerics.verification,
            trace.outcomes[m],
        ));
    }
}

/// Every loop stands on a similarity that clears the floor, on enough travel where that is
/// asked for, and on a verification that succeeded and gave its pose: the constraint runs
/// from the older to the newer frame and repeats what the verification found. The older
/// frame has stereo features.
pub proof fn closed_loops_are_verified<S, V, D, C, B, L, A, M, W, H, Y, R, X, G, E>(
    poses: Seq<Pose>,
    features: Vec<LoopFeatures>,
    stereo: Seq<Vec<StereoFeature>>,
    config: VoLoopClosureConfig,
    numerics: LoopNumerics<S, V, D, C, L, A, M, W, H, Y, R, X>,
    trace: LoopTrace<B>,
    found: VoLoopClosureResult<Pose, G>,
    k: int,
) -> (proof_of: (Scalar, Scalar, Vec<WorldCorrespondence>, LoopVerification<Pose>)) where
    S: Fn(usize, usize, usize) -> usize,
    V: Fn(&Vec<LoopFeatures>, &Vec<(usize, usize)>, usize, usize, u64) -> Option<B>,
    D: Fn(&Vec<Vec<Scalar>>, &B) -> Vec<Scalar>,
    C: Fn(&Vec<Scalar>, &Vec<Scalar>) -> Scalar,
    L: Fn(&Pose, &Pose) -> Scalar,
    A: Fn(Scalar, Scalar) -> Scalar,
    M: Fn(Scalar, Scalar) -> Scalar,
    W: Fn(&Pose, &Point3) -> Point3,
    H: Fn(&Vec<Vec<Scalar>>, &Vec<Vec<Scalar>>, Option<Scalar>) -> Vec<DescriptorMatch>,
    Y: Fn(&Vec<WorldCorrespondence>, &Pose) -> LoopVerification<Pose>,
    R: Fn(&Pose, &Pose) -> Pose,
    X: Fn(&LoopGraph) -> Result<LoopSolution<G>, E>,

    requires
        features.len() == poses.len(),
        is_closed::<S, V, D, C, B, L, A, M, W, H, Y, R, X, G, E>(
            poses,
            features,
            stereo,
            config,
            numerics,
            trace,
            Ok(found),
        ),
        0 <= k < found.loop_constraints.len(),
    ensures
        ({
            let (similarity, travelled, list, verification) = proof_of;
            let older = found.loop_constraints[k].from_keyframe_id as int;
            let newer = found.loop_constraints[k].to_keyframe_id as int;
            &&& 0 <= older < newer < poses.len()
            &&& call_ensures(
                numerics.appearance.similarity,
                (&trace.globals[newer], &trace.globals[older]),
                similarity,
            )
            &&& config.min_similarity.le(similarity)
            &&& config.min_path_length matches Some(least) ==> (Scalar::zero().lt(least)
                ==> least.le(travelled) && call_ensures(
                numerics.travel.minus,
                (trace.path[newer], trace.path[older]),
                travelled,
            ))
            &&& stereo[older].len() > 0
            &&& call_ensures(numerics.verification.verify, (&list, &poses[older]), verification)
            &&& verification.verified
            &&& verification.relative_pose == Some(found.loop_constraints[k].relative_pose)
            &&& verification.inlier_count == found.loop_constraints[k].inlier_count
            &&& verification.inlier_ratio == found.loop_constraints[k].inlier_ratio
            &&& verification.mean_sampson_error == found.loop_constraints[k].mean_sampson_error
            &&& verification.score == found.loop_constraints[k].score
        }),
{
    let constraints = verified(trace.outcomes);
    let ordered = to_verify(trace.candidates, config.max_verifications);
    let (graph, solution) = choose|graph: LoopGraph, solution: Result<LoopSolution<G>, E>|
        #[trigger]
        is_solved::<R, X, G, E>(
            poses,
            constraints,
            trace.candidates.len() as int,
            numerics.graph,
            graph,
            solution,
            Ok(found),
        );
    assert(found.loop_constraints@ == constraints);
    let m = lemma_verified_comes_from(trace.outcomes, k);
    assert(trace.candidates.len() <= usize::MAX) by {
        gated_candidates_have_travelled(trace.proposed, trace.travelled, config.min_path_length);
        lemma_gated_bound(trace.proposed, trace.travelled, config.min_path_length);
    }
    let keys = trace.candidates.map_values(
        |candidate: LoopCandidatePair| similarity_key(candidate.similarity),
    );
    stable_order_exists(keys);
    let order = stable_order_of(keys);
    assert(ordered[m] == trace.candidates[order[m] as int]);
    let at = gated_candidates_have_travelled(
        trace.proposed,
        trace.travelled,
        config.min_path_length,
    );
    let p = at[order[m] as int];
    assert(ordered[m] == trace.proposed[p]);
    candidates_keep_gap_and_floor(
        trace.rows,
        trace.rows.len(),
        config.min_frame_gap as nat,
        config.min_similarity,
        config.max_candidates_per_frame as int,
        p,
    );
    let candidate = ordered[m];
    assert(is_similarity_row::<S, V, D, C, B>(
        trace.globals,
        config.min_frame_gap as int,
        numerics.appearance,
        candidate.newer as int,
        trace.rows[candidate.newer as int]@,
    ));
    assert(trace.rows[candidate.newer as int]@[candidate.older as int] == candidate.similarity);
    assert(is_outcome(
        poses,
        features@,
        stereo,
        config.match_ratio,
        candidate,
        numerics.verification,
        trace.outcomes[m],
    ));
    let (matches, list, verification) = choose|
        matches: Vec<DescriptorMatch>,
        list: Vec<WorldCorrespondence>,
        verification: LoopVerification<Pose>,
    | #[trigger]
        is_verified(
            poses,
            features@,
            stereo,
            config.match_ratio,
            candidate,
            numerics.verification,
            matches,
            list,
            verification,
            trace.outcomes[m],
        );
    let travelled = trace.travelled[p];
    (candidate.similarity, travelled, list, verification)
}

proof fn lemma_gated_bound(
    candidates: Seq<LoopCandidatePair>,
    travelled: Seq<Scalar>,
    min_path_length: Option<Scalar>,
)
    requires
        candidates.len() <= usize::MAX,
    ensures
        travel_gated(candidates, travelled, min_path_length).len() <= candidates.len(),
{
    if let Some(least) = min_path_length {
        lemma_indices_where(candidates.len(), travelled_far(travelled, least));
    }
}

/// The loops are those of the candidates whose verification succeeded, in the order in which
/// they were verified.
pub proof fn loops_come_in_verification_order(
    outcomes: Seq<Option<LoopClosureConstraint<Pose>>>,
) -> (at: Seq<int>)
    ensures
        lists_kept(at, outcomes.len(), |k: int| outcomes[k] is Some),
        verified(outcomes).len() == at.len(),
        forall|k: int|
            0 <= k < at.len() ==> outcomes[#[trigger] at[k]] == Some(verified(outcomes)[k]),
    decreases outcomes.len(),
{
    let kept = |k: int| outcomes[k] is Some;
    if outcomes.len() == 0 {
        Seq::empty()
    } else {
        let rest = outcomes.drop_last();
        let n = rest.len() as int;
        let before = loops_come_in_verification_order(rest);
        let kept_before = |k: int| rest[k] is Some;
        assert forall|k: int| 0 <= k < n implies #[trigger] kept(k) == kept_before(k) by {}
        assert(lists_kept(before, rest.len(), kept));
        crate::sequences::lemma_lists_one_more(before, rest.len(), kept);
        assert forall|k: int| 0 <= k < before.len() implies rest[#[trigger] before[k]]
            == outcomes[before[k]] by {}
        if outcomes[n] is Some {
            assert(kept(n));
            let at = before.push(n);
            assert(at.last() == n);
            at
        } else {
            before
        }
    }
}

/// A trajectory without a verified loop keeps its poses and is not optimised; with one, each
/// frame takes the pose that the optimisation gives it and keeps its own where it gives
/// none, and all loops are handed to it.
pub proof fn trajectories_move_only_with_loops<R, X, G, E>(
    poses: Seq<Pose>,
    constraints: Seq<LoopClosureConstraint<Pose>>,
    candidate_count: int,
    numerics: GraphNumerics<R, X>,
    found: VoLoopClosureResult<Pose, G>,
    k: int,
) -> (solution: Option<LoopSolution<G>>) where
    R: Fn(&Pose, &Pose) -> Pose,
    X: Fn(&LoopGraph) -> Result<LoopSolution<G>, E>,

    requires
        is_settled::<R, X, G, E>(poses, constraints, candidate_count, numerics, Ok(found)),
        0 <= k < poses.len(),
    ensures
        found.refined_poses.len() == poses.len(),
        found.loop_constraints@ == constraints,
        found.candidate_count == candidate_count,
        solution is Some <==> constraints.len() > 0,
        found.gnc is Some <==> constraints.len() > 0,
        constraints.len() == 0 ==> found.refined_poses@[k] == poses[k],
        solution matches Some(solved) ==> {
            &&& found.gnc == Some(solved.report)
            &&& k < solved.poses.len() && solved.poses[k] is Some ==> solved.poses[k] == Some(
                found.refined_poses@[k],
            )
            &&& k >= solved.poses.len() || solved.poses[k] is None ==> found.refined_poses@[k]
                == poses[k]
            &&& exists|graph: LoopGraph|
                {
                    &&& #[trigger] call_ensures(numerics.solve, (&graph,), Ok::<_, E>(solved))
                    &&& graph.poses@ == poses
                    &&& graph.constraints@ == constraints
                    &&& graph.sequential.len() == poses.len() - 1
                    &&& k < poses.len() - 1 ==> graph.sequential[k].from == k
                        && graph.sequential[k].to == k + 1 && call_ensures(
                        numerics.relative,
                        (&poses[k], &poses[k + 1]),
                        graph.sequential[k].relative_pose,
                    )
                }
        },
{
    let (graph, solution) = choose|graph: LoopGraph, solution: Result<LoopSolution<G>, E>|
        #[trigger]
        is_solved::<R, X, G, E>(
            poses,
            constraints,
            candidate_count,
            numerics,
            graph,
            solution,
            Ok(found),
        );
    if constraints.len() == 0 {
        assert(found.loop_constraints@ =~= constraints);
        None
    } else {
        if k < poses.len() - 1 {
            let edge = graph.sequential[k];
        }
        assert(call_ensures(numerics.solve, (&graph,), Ok::<_, E>(solution->Ok_0)));
        Some(solution->Ok_0)
    }
}

/// A frame is compared with those at least the gap before it, and with no others.
pub proof fn frames_are_compared_across_the_gap<S, V, D, C, B>(
    globals: Seq<Vec<Scalar>>,
    gap: int,
    numerics: AppearanceNumerics<S, V, D, C>,
    rows: Seq<Vec<Scalar>>,
    newer: int,
    older: int,
) where
    S: Fn(usize, usize, usize) -> usize,
    V: Fn(&Vec<LoopFeatures>, &Vec<(usize, usize)>, usize, usize, u64) -> Option<B>,
    D: Fn(&Vec<Vec<Scalar>>, &B) -> Vec<Scalar>,
    C: Fn(&Vec<Scalar>, &Vec<Scalar>) -> Scalar,

    requires
        is_similarities::<S, V, D, C, B>(globals, gap, numerics, rows),
        0 <= newer < globals.len(),
        gap > 0,
    ensures
        0 <= older < rows[newer]@.len() <==> 0 <= older && older + gap <= newer,
        0 <= older && older + gap <= newer ==> call_ensures(
            numerics.similarity,
            (&globals[newer], &globals[older]),
            rows[newer]@[older],
        ),
{
    let row = rows[newer]@;
    assert(is_similarity_row::<S, V, D, C, B>(globals, gap, numerics, newer, row));
    if 0 <= older < row.len() {
        let entry = row[older];
    }
}

/// A pool larger than a positive cap is cut down to it by sampling; any other pool is whole.
pub proof fn pools_are_capped<S, V, D, C, B>(
    features: Seq<LoopFeatures>,
    config: VoLoopClosureConfig,
    numerics: AppearanceNumerics<S, V, D, C>,
    at: Seq<usize>,
    pool: Seq<(usize, usize)>,
    i: int,
) where
    S: Fn(usize, usize, usize) -> usize,
    V: Fn(&Vec<LoopFeatures>, &Vec<(usize, usize)>, usize, usize, u64) -> Option<B>,
    D: Fn(&Vec<Vec<Scalar>>, &B) -> Vec<Scalar>,
    C: Fn(&Vec<Scalar>, &Vec<Scalar>) -> Scalar,

    requires
        is_pool::<S, V, D, C, B>(features, config, numerics, at, pool),
        features.len() <= usize::MAX,
        0 <= i < pool.len(),
    ensures
        config.vocab_max_pool matches Some(cap) ==> (cap > 0 ==> pool.len() <= cap),
        pool[i].0 < features.len(),
        pool[i].1 < features[pool[i].0 as int].descriptors.len(),
        config.vocab_descriptor_stride > 0 ==> pool[i].1 as int % config.vocab_descriptor_stride as int
            == 0,
        (config.vocab_max_pool matches Some(cap) ==> cap == 0 || cap >= strided_pool(
            features,
            config.vocab_descriptor_stride,
        ).len()) ==> pool == strided_pool(features, config.vocab_descriptor_stride),
{
    let all = strided_pool(features, config.vocab_descriptor_stride);
    let counts = descriptor_counts(features);
    let stride: int = if config.vocab_descriptor_stride == 0 {
        1
    } else {
        config.vocab_descriptor_stride as int
    };
    if let Some(cap) = config.vocab_max_pool {
        if 0 < cap < all.len() {
            let n = i as usize;
            assert(n as int == i);
            assert(at[n as int] < all.len() && pool[n as int] == all[at[n as int] as int]);
        }
    }
    assert(all.contains(pool[i]));
    assert((pool[i].0, pool[i].1) == pool[i]);
    pools_are_strided(counts, stride, pool[i].0, pool[i].1);
}

/// The path grows by the distance between each frame and the one before it, from zero; a
/// candidate's travel is the difference of its two frames' paths.
pub proof fn paths_add_up<L, A, M>(
    poses: Seq<Pose>,
    candidates: Seq<LoopCandidatePair>,
    least: Scalar,
    numerics: TravelNumerics<L, A, M>,
    steps: Seq<Scalar>,
    path: Seq<Scalar>,
    travelled: Seq<Scalar>,
    kept: Seq<LoopCandidatePair>,
    i: int,
    k: int,
) where
    L: Fn(&Pose, &Pose) -> Scalar,
    A: Fn(Scalar, Scalar) -> Scalar,
    M: Fn(Scalar, Scalar) -> Scalar,

    requires
        is_gated(poses, candidates, Some(least), numerics, steps, path, travelled, kept),
        !least.is_nan(),
        !least.le(Scalar::zero()),
        0 <= i < poses.len(),
        0 <= k < candidates.len(),
    ensures
        path[0] == Scalar::zero(),
        i > 0 ==> call_ensures(numerics.distance, (&poses[i], &poses[i - 1]), steps[i])
            && call_ensures(numerics.plus, (path[i - 1], steps[i]), path[i]),
        call_ensures(
            numerics.minus,
            (path[candidates[k].newer as int], path[candidates[k].older as int]),
            travelled[k],
        ),
{
    let step = steps[i];
    let travel = travelled[k];
}

/// A verification sees one correspondence for each pair that is lifted: the newer frame's
/// pixel and confidence, and the older frame's stereo point in the world.
pub proof fn verifications_see_the_lifted_pairs<W, H, Y>(
    pose: Pose,
    keypoints: Seq<Pixel>,
    stereo: Seq<StereoFeature>,
    matches: Seq<DescriptorMatch>,
    numerics: VerificationNumerics<W, H, Y>,
    list: Seq<WorldCorrespondence>,
    k: int,
) -> (at: (int, int)) where
    W: Fn(&Pose, &Point3) -> Point3,
    H: Fn(&Vec<Vec<Scalar>>, &Vec<Vec<Scalar>>, Option<Scalar>) -> Vec<DescriptorMatch>,
    Y: Fn(&Vec<WorldCorrespondence>, &Pose) -> LoopVerification<Pose>,

    requires
        stereo.len() <= usize::MAX,
        is_world_list(
            pose,
            keypoints,
            stereo,
            lifted(left_indices(stereo), matches, keypoints.len() as int),
            numerics,
            list,
        ),
        0 <= k < list.len(),
    ensures
        ({
            let (m, s) = at;
            &&& 0 <= m < matches.len()
            &&& 0 <= s < stereo.len()
            &&& matches[m].query_index < keypoints.len()
            &&& list[k].pixel == keypoints[matches[m].query_index as int]
            &&& list[k].confidence == matches[m].confidence
            &&& stereo[s].left_index == matches[m].train_index
            &&& call_ensures(numerics.to_world, (&pose, &stereo[s].point_cam), list[k].point)
        }),
{
    let indices = left_indices(stereo);
    let pairs = lifted(indices, matches, keypoints.len() as int);
    let at = correspondences_follow_matches(indices, matches, keypoints.len() as int);
    let m = at[k];
    let s = pairs[k].stereo_index as int;
    assert(indices[s] == matches[m].train_index);
    let entry = list[k];
    (m, s)
}

} // verus!
