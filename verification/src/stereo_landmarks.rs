//! Landmarks for stereo bundle adjustment: which feature tracks become landmarks, where
//! each one starts, and what observes it.
//!
//! Triangulation and reprojection are the caller's; the gates on their results are here.
use crate::feature_tracks::{is_within, lists, TemporalMatch};
use crate::geometry::{Point3, Pose};
use crate::scalar::Scalar;
use crate::sequences::{lemma_take_all, lists_kept};
use std::collections::BTreeMap;
use vstd::prelude::*;

verus! {

/// A position in an image.
#[derive(Clone, Copy, Debug, PartialEq, Eq, Structural)]
pub struct Pixel {
    pub x: Scalar,
    pub y: Scalar,
}

/// The keypoints of an image.
#[derive(Clone, Debug, PartialEq, Eq)]
pub struct FeatureSet {
    pub keypoints: Vec<Pixel>,
}

/// A left keypoint matched with a right one, and the point it triangulates to in the
/// camera frame.
#[derive(Clone, Copy, Debug, PartialEq, Eq, Structural)]
pub struct StereoFeature {
    pub left_index: usize,
    pub right_index: usize,
    pub disparity: Scalar,
    pub point_cam: Point3,
}

/// Focal lengths and principal point of a pinhole camera.
#[derive(Clone, Copy, Debug, PartialEq, Eq, Structural)]
pub struct Intrinsics {
    pub fx: Scalar,
    pub fy: Scalar,
    pub cx: Scalar,
    pub cy: Scalar,
}

/// A rectified stereo camera. Cameras without a pinhole model have no intrinsics.
#[derive(Clone, Copy, Debug, PartialEq, Eq, Structural)]
pub struct StereoRig {
    pub height: u32,
    pub intrinsics: Option<Intrinsics>,
    pub baseline: Scalar,
}

/// How a landmark gets its first position.
#[derive(Clone, Copy, Debug, PartialEq, Eq, Structural)]
pub enum LandmarkInit {
    /// From the first usable stereo point of the track.
    StereoSingleFrame,
    /// From all stereo views of the track at once; where that fails, from a single frame.
    MultiViewDlt,
}

impl Default for LandmarkInit {
    fn default() -> (init: LandmarkInit)
        ensures
            init == LandmarkInit::StereoSingleFrame,
    {
        LandmarkInit::StereoSingleFrame
    }
}

/// What a track must pass to become a landmark.
#[derive(Clone, Copy, Debug, PartialEq, Eq, Structural)]
pub struct TrackGates {
    pub min_track_length: usize,
    pub max_initial_depth_m: Scalar,
    pub max_init_residual_px: Option<Scalar>,
    pub landmark_init: LandmarkInit,
}

/// A sequence of stereo frames; `temporal` matches each frame with the next.
pub struct StereoSequence<'a> {
    pub rig: &'a StereoRig,
    pub poses: &'a Vec<Pose>,
    pub left: &'a [FeatureSet],
    pub right: &'a [FeatureSet],
    pub stereo: &'a [Vec<StereoFeature>],
    pub temporal: &'a [Vec<TemporalMatch>],
}

/// A sequence of stereo frames in the contracts.
#[verifier::ext_equal]
pub struct Scene {
    pub rig: StereoRig,
    pub poses: Seq<Pose>,
    pub left: Seq<Seq<Pixel>>,
    pub right: Seq<Seq<Pixel>>,
    pub stereo: Seq<Seq<StereoFeature>>,
    pub temporal: Seq<Seq<TemporalMatch>>,
}

/// The keypoints of each frame.
pub open spec fn keypoints(features: Seq<FeatureSet>) -> Seq<Seq<Pixel>> {
    features.map_values(|set: FeatureSet| set.keypoints@)
}

impl<'a> View for StereoSequence<'a> {
    type V = Scene;

    open spec fn view(&self) -> Scene {
        Scene {
            rig: *self.rig,
            poses: self.poses@,
            left: keypoints(self.left@),
            right: keypoints(self.right@),
            stereo: lists(self.stereo@),
            temporal: lists(self.temporal@),
        }
    }
}

impl Scene {
    /// Every frame has a pose, keypoints on both sides, and stereo features.
    pub open spec fn is_complete(self) -> bool {
        &&& self.left.len() == self.poses.len()
        &&& self.right.len() == self.poses.len()
        &&& self.stereo.len() == self.poses.len()
        &&& self.temporal.len() + 1 == self.poses.len()
    }

    /// The number of left keypoints of each frame.
    pub open spec fn counts(self) -> Seq<nat> {
        self.left.map_values(|pixels: Seq<Pixel>| pixels.len())
    }

    /// The stereo feature of a left keypoint: the last one listed decides.
    pub open spec fn feature_at(self, slot: (usize, usize)) -> Option<StereoFeature> {
        last_feature(self.stereo[slot.0 as int], slot.1)
    }

    /// A keypoint seen by both cameras, if it is.
    pub open spec fn view_at(self, slot: (usize, usize)) -> Option<TrackView> {
        let left = self.left[slot.0 as int];
        let right = self.right[slot.0 as int];
        match self.feature_at(slot) {
            Some(feature) => if slot.1 < left.len() && feature.right_index < right.len() {
                Some(
                    TrackView {
                        frame: slot.0,
                        left_index: slot.1,
                        left: left[slot.1 as int],
                        u_right: right[feature.right_index as int].x,
                    },
                )
            } else {
                None
            },
            None => None,
        }
    }

    /// The stereo views of a track, in order.
    pub open spec fn track_views(self, track: Seq<(usize, usize)>) -> Seq<TrackView>
        decreases track.len(),
    {
        if track.len() == 0 {
            Seq::empty()
        } else {
            match self.view_at(track.last()) {
                Some(view) => self.track_views(track.drop_last()).push(view),
                None => self.track_views(track.drop_last()),
            }
        }
    }

    /// The camera-frame point of a slot, where it can start a landmark: finite, in front of
    /// the camera, and not too far.
    pub open spec fn seed_point(self, slot: (usize, usize), max_depth: Scalar) -> Option<Point3> {
        match self.feature_at(slot) {
            Some(feature) => {
                let point = feature.point_cam;
                if point.finite() && !point.z.le(Scalar::zero()) && !max_depth.lt(point.z) {
                    Some(point)
                } else {
                    None
                }
            },
            None => None,
        }
    }

    /// The first slot of a track, from the `k`-th on, that can start a landmark.
    pub open spec fn first_seed(
        self,
        track: Seq<(usize, usize)>,
        max_depth: Scalar,
        k: int,
    ) -> Option<(usize, Point3)>
        decreases track.len() - k,
    {
        if k >= track.len() {
            None
        } else {
            match self.seed_point(track[k], max_depth) {
                Some(point) => Some((track[k].0, point)),
                None => self.first_seed(track, max_depth, k + 1),
            }
        }
    }
}

/// The last feature listed for a left keypoint.
pub open spec fn last_feature(features: Seq<StereoFeature>, left_index: usize) -> Option<
    StereoFeature,
>
    decreases features.len(),
{
    if features.len() == 0 {
        None
    } else if features.last().left_index == left_index {
        Some(features.last())
    } else {
        last_feature(features.drop_last(), left_index)
    }
}

/// A keypoint of a track that both cameras see.
#[derive(Clone, Copy, Debug, PartialEq, Eq, Structural)]
pub struct TrackView {
    pub frame: usize,
    pub left_index: usize,
    pub left: Pixel,
    pub u_right: Scalar,
}

/// A view with the pose of its frame.
#[derive(Clone, Copy, Debug, PartialEq, Eq, Structural)]
pub struct PosedView {
    pub pose: Pose,
    pub view: TrackView,
}

/// A linear triangulation: the point, and the homogeneous weight it was divided by.
#[derive(Clone, Copy, Debug, PartialEq, Eq, Structural)]
pub struct DltSolution {
    pub point: Point3,
    pub weight: Scalar,
}

/// How a point projects into a view: its depth, and the distance in pixels between the
/// predicted and the observed stereo measurement.
#[derive(Clone, Copy, Debug, PartialEq, Eq, Structural)]
pub struct ViewResidual {
    pub depth: Scalar,
    pub norm: Scalar,
}

/// The smallest homogeneous weight that counts as non-zero: `1e-12`.
pub const MIN_WEIGHT_BITS: u64 = 0x3D71_9799_812D_EA11;

/// The computations that landmark selection needs.
pub struct LandmarkNumerics<L, W, T, D, R> {
    /// The largest row of the image, as a fraction of its height in the rig.
    pub row_limit: L,
    /// A camera-frame point in world coordinates.
    pub to_world: W,
    /// Linear triangulation over all views of a track.
    pub triangulate: T,
    /// The depth of a world point in a camera.
    pub depth: D,
    /// The stereo reprojection of a world point.
    pub residual: R,
}

impl<L, W, T, D, R> LandmarkNumerics<L, W, T, D, R> where
    L: Fn(&StereoRig, Scalar) -> Scalar,
    W: Fn(&Pose, &Point3) -> Point3,
    T: Fn(&StereoRig, &Vec<PosedView>) -> Option<DltSolution>,
    D: Fn(&Pose, &Point3) -> Scalar,
    R: Fn(&StereoRig, &PosedView, &Point3) -> ViewResidual,
 {
    /// Every computation can be asked for.
    pub open spec fn callable(self) -> bool {
        &&& forall|rig: StereoRig, fraction: Scalar| #[trigger]
            call_requires(self.row_limit, (&rig, fraction))
        &&& forall|pose: Pose, point: Point3| #[trigger]
            call_requires(self.to_world, (&pose, &point))
        &&& forall|rig: StereoRig, views: Vec<PosedView>| #[trigger]
            call_requires(self.triangulate, (&rig, &views))
        &&& forall|pose: Pose, point: Point3| #[trigger] call_requires(self.depth, (&pose, &point))
        &&& forall|rig: StereoRig, view: PosedView, point: Point3| #[trigger]
            call_requires(self.residual, (&rig, &view, &point))
    }

    /// `limit` is the first row that a track may not start in, where one is set.
    pub open spec fn is_row_limit(
        self,
        rig: StereoRig,
        fraction: Option<Scalar>,
        limit: Option<Scalar>,
    ) -> bool {
        match fraction {
            None => limit is None,
            Some(value) => limit matches Some(row) && call_ensures(
                self.row_limit,
                (&rig, value),
                row,
            ),
        }
    }

    /// `start` is the first position of a track that its first usable frame gives.
    pub open spec fn is_single_frame_start(
        self,
        scene: Scene,
        max_depth: Scalar,
        track: Seq<(usize, usize)>,
        start: Option<Point3>,
    ) -> bool {
        match scene.first_seed(track, max_depth, 0) {
            None => start is None,
            Some((frame, point)) => start matches Some(world) && call_ensures(
                self.to_world,
                (&scene.poses[frame as int], &point),
                world,
            ),
        }
    }

    /// `solution` is what linear triangulation over the views gave.
    pub open spec fn is_triangulation(
        self,
        scene: Scene,
        views: Seq<TrackView>,
        solution: Option<DltSolution>,
    ) -> bool {
        exists|posed: Vec<PosedView>|
            posed@ == posed_views(scene, views) && #[trigger] call_ensures(
                self.triangulate,
                (&scene.rig, &posed),
                solution,
            )
    }

    /// `start` is the position that all views of a track give together: the triangulated
    /// point, where its weight does not vanish, it is finite, and its depth in the first
    /// view lies in range.
    pub open spec fn is_multi_view_start(
        self,
        scene: Scene,
        max_depth: Scalar,
        track: Seq<(usize, usize)>,
        start: Option<Point3>,
    ) -> bool {
        let views = scene.track_views(track);
        if scene.rig.intrinsics is None || views.len() < 2 {
            start is None
        } else {
            exists|solution: Option<DltSolution>| #[trigger]
                self.is_triangulation(scene, views, solution) && (match solution {
                    None => start is None,
                    Some(found) => if !is_proper(found) {
                        start is None
                    } else {
                        exists|depth: Scalar| #[trigger]
                            call_ensures(
                                self.depth,
                                (&scene.poses[views[0].frame as int], &found.point),
                                depth,
                            ) && start == (if in_range(depth, max_depth) {
                                Some(found.point)
                            } else {
                                None
                            })
                    },
                })
        }
    }

    /// `start` is the first position of a track.
    pub open spec fn is_start(
        self,
        scene: Scene,
        gates: TrackGates,
        track: Seq<(usize, usize)>,
        start: Option<Point3>,
    ) -> bool {
        let max_depth = gates.max_initial_depth_m;
        match gates.landmark_init {
            LandmarkInit::StereoSingleFrame => self.is_single_frame_start(
                scene,
                max_depth,
                track,
                start,
            ),
            LandmarkInit::MultiViewDlt => {
                ||| start is Some && self.is_multi_view_start(scene, max_depth, track, start)
                ||| self.is_multi_view_start(scene, max_depth, track, None)
                    && self.is_single_frame_start(scene, max_depth, track, start)
            },
        }
    }

    /// The residuals are those of the first views.
    pub open spec fn are_residuals(
        self,
        scene: Scene,
        views: Seq<TrackView>,
        world: Point3,
        residuals: Seq<ViewResidual>,
    ) -> bool {
        &&& residuals.len() <= views.len()
        &&& forall|k: int|
            0 <= k < residuals.len() ==> call_ensures(
                self.residual,
                (
                    &scene.rig,
                    &(PosedView { pose: scene.poses[views[k].frame as int], view: views[k] }),
                    &world,
                ),
                #[trigger] residuals[k],
            )
    }

    /// Whether every view agrees with the first position of the landmark. Without a
    /// threshold or without intrinsics nothing is asked; otherwise the first view that
    /// disagrees rejects.
    pub open spec fn is_gate(
        self,
        scene: Scene,
        threshold: Option<Scalar>,
        views: Seq<TrackView>,
        world: Point3,
        passes: bool,
    ) -> bool {
        if threshold is None || scene.rig.intrinsics is None {
            passes
        } else {
            exists|residuals: Seq<ViewResidual>| #[trigger]
                self.are_residuals(scene, views, world, residuals) && (forall|k: int|
                    0 <= k < residuals.len() - 1 ==> agrees(
                        #[trigger] residuals[k],
                        threshold->0,
                    )) && (if passes {
                    residuals.len() == views.len() && (residuals.len() > 0 ==> agrees(
                        residuals.last(),
                        threshold->0,
                    ))
                } else {
                    residuals.len() > 0 && !agrees(residuals.last(), threshold->0)
                })
        }
    }

    /// What becomes of a track: nothing, or a landmark with its first position and views.
    pub open spec fn is_verdict(
        self,
        scene: Scene,
        gates: TrackGates,
        limit: Option<Scalar>,
        track: Seq<(usize, usize)>,
        verdict: Option<LandmarkModel>,
    ) -> bool {
        let views = scene.track_views(track);
        if !starts_above(scene, limit, track[0]) {
            verdict is None
        } else {
            exists|start: Option<Point3>| #[trigger]
                self.is_start(scene, gates, track, start) && (match start {
                    None => verdict is None,
                    Some(world) => {
                        ||| self.is_gate(scene, gates.max_init_residual_px, views, world, false)
                            && verdict is None
                        ||| self.is_gate(scene, gates.max_init_residual_px, views, world, true)
                            && verdict == (if views.len() >= gates.min_track_length {
                            Some(LandmarkModel { position: world, views })
                        } else {
                            None
                        })
                    },
                })
        }
    }

    /// The verdicts are those of the tracks, one for each.
    pub open spec fn are_verdicts(
        self,
        scene: Scene,
        gates: TrackGates,
        limit: Option<Scalar>,
        tracks: Seq<Seq<(usize, usize)>>,
        verdicts: Seq<Option<LandmarkModel>>,
    ) -> bool {
        &&& verdicts.len() == tracks.len()
        &&& forall|t: int|
            0 <= t < tracks.len() ==> self.is_verdict(
                scene,
                gates,
                limit,
                tracks[t],
                #[trigger] verdicts[t],
            )
    }
}

/// The views with the poses of their frames.
pub open spec fn posed_views(scene: Scene, views: Seq<TrackView>) -> Seq<PosedView> {
    views.map_values(
        |view: TrackView| PosedView { pose: scene.poses[view.frame as int], view },
    )
}

/// The weight of a triangulation does not vanish, and the point is finite.
pub open spec fn is_proper(found: DltSolution) -> bool {
    found.weight.is_finite() && !found.weight.abs().lt(Scalar { bits: MIN_WEIGHT_BITS })
        && found.point.finite()
}

/// A depth in front of the camera and not too far.
pub open spec fn in_range(depth: Scalar, max_depth: Scalar) -> bool {
    depth.is_finite() && !depth.le(Scalar::zero()) && !max_depth.lt(depth)
}

/// The point lies in front of the camera and its residual is within the threshold.
pub open spec fn agrees(residual: ViewResidual, threshold: Scalar) -> bool {
    !residual.depth.le(Scalar::zero()) && residual.norm.is_finite() && !threshold.lt(residual.norm)
}

/// Whether a track's first keypoint lies above the row limit.
pub open spec fn starts_above(scene: Scene, limit: Option<Scalar>, slot: (usize, usize)) -> bool {
    match limit {
        None => true,
        Some(row) => {
            let left = scene.left[slot.0 as int];
            slot.1 < left.len() && left[slot.1 as int].y.lt(row)
        },
    }
}

/// A landmark in the contracts.
#[verifier::ext_equal]
pub struct LandmarkModel {
    pub position: Point3,
    pub views: Seq<TrackView>,
}

/// The landmarks among the verdicts.
pub open spec fn accepted(verdicts: Seq<Option<LandmarkModel>>) -> Seq<LandmarkModel>
    decreases verdicts.len(),
{
    if verdicts.len() == 0 {
        Seq::empty()
    } else {
        match verdicts.last() {
            Some(landmark) => accepted(verdicts.drop_last()).push(landmark),
            None => accepted(verdicts.drop_last()),
        }
    }
}

/// A landmark with its first position and everything that observes it.
#[derive(Clone, Debug, PartialEq, Eq)]
pub struct LandmarkSeed {
    pub id: u64,
    pub position: Point3,
    pub views: Vec<TrackView>,
}

impl View for LandmarkSeed {
    type V = LandmarkModel;

    open spec fn view(&self) -> LandmarkModel {
        LandmarkModel { position: self.position, views: self.views@ }
    }
}

/// One stereo measurement of a landmark in a frame.
#[derive(Clone, Copy, Debug, PartialEq, Eq, Structural)]
pub struct StereoObservation {
    pub keyframe_id: u64,
    pub landmark_id: u64,
    pub xy: Pixel,
    pub u_right: Scalar,
}

/// The measurements of one landmark.
pub open spec fn observations_of(id: nat, views: Seq<TrackView>) -> Seq<StereoObservation> {
    views.map_values(
        |view: TrackView|
            StereoObservation {
                keyframe_id: view.frame as u64,
                landmark_id: id as u64,
                xy: view.left,
                u_right: view.u_right,
            },
    )
}

/// The measurements of all landmarks, landmark by landmark.
pub open spec fn all_observations(landmarks: Seq<LandmarkModel>) -> Seq<StereoObservation>
    decreases landmarks.len(),
{
    if landmarks.len() == 0 {
        Seq::empty()
    } else {
        all_observations(landmarks.drop_last()) + observations_of(
            (landmarks.len() - 1) as nat,
            landmarks.last().views,
        )
    }
}

/// The features of a frame by left keypoint.
pub open spec fn is_feature_table(
    table: Map<usize, StereoFeature>,
    features: Seq<StereoFeature>,
) -> bool {
    forall|index: usize| #[trigger]
        last_feature(features, index) == (if table.contains_key(index) {
            Some(table[index])
        } else {
            None
        })
}

fn build_feature_table(features: &Vec<StereoFeature>) -> (table: BTreeMap<usize, StereoFeature>)
    ensures
        is_feature_table(table@, features@),
{
    broadcast use vstd::std_specs::btree::group_btree_axioms;

    let mut table: BTreeMap<usize, StereoFeature> = BTreeMap::new();
    let mut i: usize = 0;
    while i < features.len()
        invariant
            i <= features.len(),
            is_feature_table(table@, features@.take(i as int)),
        decreases features.len() - i,
    {
        broadcast use vstd::std_specs::btree::group_btree_axioms;

        assert(features@.take(i + 1).drop_last() =~= features@.take(i as int));
        let ghost before = table@;
        table.insert(features[i].left_index, features[i]);
        proof {
            assert forall|index: usize| #[trigger]
                last_feature(features@.take(i + 1), index) == (if table@.contains_key(index) {
                    Some(table@[index])
                } else {
                    None
                }) by {
                assert(last_feature(features@.take(i as int), index) == (
                if before.contains_key(index) {
                    Some(before[index])
                } else {
                    None
                }));
            }
        }
        i += 1;
    }
    proof {
        lemma_take_all(features@);
    }
    table
}

/// The tables hold the features of the frames.
pub open spec fn are_feature_tables(tables: Seq<BTreeMap<usize, StereoFeature>>, scene: Scene) -> bool {
    &&& tables.len() == scene.stereo.len()
    &&& forall|f: int|
        0 <= f < tables.len() ==> is_feature_table(#[trigger] tables[f]@, scene.stereo[f])
}

fn build_feature_tables(sequence: &StereoSequence) -> (tables: Vec<BTreeMap<usize, StereoFeature>>)
    ensures
        are_feature_tables(tables@, sequence@),
{
    let mut tables: Vec<BTreeMap<usize, StereoFeature>> = Vec::new();
    let mut f: usize = 0;
    while f < sequence.stereo.len()
        invariant
            f <= sequence.stereo@.len(),
            tables.len() == f,
            forall|k: int|
                0 <= k < tables.len() ==> is_feature_table(
                    #[trigger] tables[k]@,
                    sequence.stereo@[k]@,
                ),
        decreases sequence.stereo@.len() - f,
    {
        let table = build_feature_table(&sequence.stereo[f]);
        tables.push(table);
        f += 1;
    }
    tables
}

fn find_feature(
    tables: &Vec<BTreeMap<usize, StereoFeature>>,
    slot: (usize, usize),
    Ghost(scene): Ghost<Scene>,
) -> (feature: Option<StereoFeature>)
    requires
        are_feature_tables(tables@, scene),
        slot.0 < scene.stereo.len(),
    ensures
        feature == scene.feature_at(slot),
{
    broadcast use vstd::std_specs::btree::group_btree_axioms;

    assert(is_feature_table(tables[slot.0 as int]@, scene.stereo[slot.0 as int]));
    assert(last_feature(scene.stereo[slot.0 as int], slot.1) == (
    if tables[slot.0 as int]@.contains_key(slot.1) {
        Some(tables[slot.0 as int]@[slot.1])
    } else {
        None
    }));
    match tables[slot.0].get(&slot.1) {
        Some(feature) => Some(*feature),
        None => None,
    }
}

fn find_view(
    sequence: &StereoSequence,
    tables: &Vec<BTreeMap<usize, StereoFeature>>,
    slot: (usize, usize),
) -> (view: Option<TrackView>)
    requires
        sequence@.is_complete(),
        are_feature_tables(tables@, sequence@),
        slot.0 < sequence.poses.len(),
    ensures
        view == sequence@.view_at(slot),
{
    let left = &sequence.left[slot.0].keypoints;
    let right = &sequence.right[slot.0].keypoints;
    assert(sequence@.left[slot.0 as int] == left@);
    assert(sequence@.right[slot.0 as int] == right@);
    match find_feature(tables, slot, Ghost(sequence@)) {
        Some(feature) => if slot.1 < left.len() && feature.right_index < right.len() {
            Some(
                TrackView {
                    frame: slot.0,
                    left_index: slot.1,
                    left: left[slot.1],
                    u_right: right[feature.right_index].x,
                },
            )
        } else {
            None
        },
        None => None,
    }
}

/// Every view lies in one of the frames.
pub open spec fn views_within(views: Seq<TrackView>, frames: nat) -> bool {
    forall|k: int| 0 <= k < views.len() ==> (#[trigger] views[k]).frame < frames
}

fn collect_views(
    sequence: &StereoSequence,
    tables: &Vec<BTreeMap<usize, StereoFeature>>,
    track: &Vec<(usize, usize)>,
) -> (views: Vec<TrackView>)
    requires
        sequence@.is_complete(),
        are_feature_tables(tables@, sequence@),
        is_within(track@, sequence.poses@.len()),
    ensures
        views@ == sequence@.track_views(track@),
        views_within(views@, sequence.poses@.len()),
{
    let mut views: Vec<TrackView> = Vec::new();
    let mut k: usize = 0;
    while k < track.len()
        invariant
            k <= track.len(),
            sequence@.is_complete(),
            are_feature_tables(tables@, sequence@),
            is_within(track@, sequence.poses@.len()),
            views@ == sequence@.track_views(track@.take(k as int)),
            views_within(views@, sequence.poses@.len()),
        decreases track.len() - k,
    {
        assert(track@.take(k + 1).drop_last() =~= track@.take(k as int));
        assert(track@[k as int].0 < sequence.poses@.len());
        match find_view(sequence, tables, track[k]) {
            Some(view) => {
                views.push(view);
            },
            None => {},
        }
        k += 1;
    }
    proof {
        lemma_take_all(track@);
    }
    views
}

fn pose_views(sequence: &StereoSequence, views: &Vec<TrackView>) -> (posed: Vec<PosedView>)
    requires
        views_within(views@, sequence.poses@.len()),
    ensures
        posed@ == posed_views(sequence@, views@),
{
    let mut posed: Vec<PosedView> = Vec::new();
    let mut k: usize = 0;
    while k < views.len()
        invariant
            k <= views.len(),
            views_within(views@, sequence.poses@.len()),
            posed@ == posed_views(sequence@, views@.take(k as int)),
        decreases views.len() - k,
    {
        let view = views[k];
        assert(views@[k as int].frame < sequence.poses@.len());
        posed.push(PosedView { pose: sequence.poses[view.frame], view });
        assert(posed@ =~= posed_views(sequence@, views@.take(k + 1)));
        k += 1;
    }
    proof {
        lemma_take_all(views@);
    }
    posed
}

fn initial_landmark_world<L, W, T, D, R>(
    sequence: &StereoSequence,
    tables: &Vec<BTreeMap<usize, StereoFeature>>,
    max_depth: Scalar,
    track: &Vec<(usize, usize)>,
    numerics: &LandmarkNumerics<L, W, T, D, R>,
) -> (start: Option<Point3>) where
    L: Fn(&StereoRig, Scalar) -> Scalar,
    W: Fn(&Pose, &Point3) -> Point3,
    T: Fn(&StereoRig, &Vec<PosedView>) -> Option<DltSolution>,
    D: Fn(&Pose, &Point3) -> Scalar,
    R: Fn(&StereoRig, &PosedView, &Point3) -> ViewResidual,

    requires
        sequence@.is_complete(),
        are_feature_tables(tables@, sequence@),
        is_within(track@, sequence.poses@.len()),
        numerics.callable(),
    ensures
        numerics.is_single_frame_start(sequence@, max_depth, track@, start),
{
    let mut k: usize = 0;
    while k < track.len()
        invariant
            k <= track.len(),
            sequence@.is_complete(),
            are_feature_tables(tables@, sequence@),
            is_within(track@, sequence.poses@.len()),
            numerics.callable(),
            sequence@.first_seed(track@, max_depth, 0) == sequence@.first_seed(
                track@,
                max_depth,
                k as int,
            ),
        decreases track.len() - k,
    {
        assert(track@[k as int].0 < sequence.poses@.len());
        match find_feature(tables, track[k], Ghost(sequence@)) {
            Some(feature) => {
                let point = feature.point_cam;
                if point.is_finite() && !point.z.le(Scalar::zero()) && !max_depth.lt(point.z) {
                    let world = (numerics.to_world)(&sequence.poses[track[k].0], &point);
                    return Some(world);
                }
            },
            None => {},
        }
        k += 1;
    }
    None
}

fn triangulate_views<L, W, T, D, R>(
    sequence: &StereoSequence,
    max_depth: Scalar,
    views: &Vec<TrackView>,
    numerics: &LandmarkNumerics<L, W, T, D, R>,
    Ghost(track): Ghost<Seq<(usize, usize)>>,
) -> (start: Option<Point3>) where
    L: Fn(&StereoRig, Scalar) -> Scalar,
    W: Fn(&Pose, &Point3) -> Point3,
    T: Fn(&StereoRig, &Vec<PosedView>) -> Option<DltSolution>,
    D: Fn(&Pose, &Point3) -> Scalar,
    R: Fn(&StereoRig, &PosedView, &Point3) -> ViewResidual,

    requires
        views@ == sequence@.track_views(track),
        views_within(views@, sequence.poses@.len()),
        numerics.callable(),
    ensures
        numerics.is_multi_view_start(sequence@, max_depth, track, start),
{
    if sequence.rig.intrinsics.is_none() || views.len() < 2 {
        return None;
    }
    let posed = pose_views(sequence, views);
    let solution = (numerics.triangulate)(sequence.rig, &posed);
    assert(numerics.is_triangulation(sequence@, views@, solution));
    match solution {
        None => None,
        Some(found) => {
            if !found.weight.is_finite() || found.weight.abs().lt(
                Scalar::from_bits(MIN_WEIGHT_BITS),
            ) || !found.point.is_finite() {
                return None;
            }
            assert(views@[0].frame < sequence.poses@.len());
            let depth = (numerics.depth)(&sequence.poses[views[0].frame], &found.point);
            if !depth.is_finite() || depth.le(Scalar::zero()) || max_depth.lt(depth) {
                None
            } else {
                Some(found.point)
            }
        },
    }
}

/// The first position of a landmark from all stereo views of its track at once: none where
/// the camera has no pinhole model, where the track has fewer than two stereo views, or
/// where the point found is not finite or not within the depth limit of the first of them.
pub fn initial_landmark_world_dlt<L, W, T, D, R>(
    sequence: &StereoSequence,
    max_initial_depth_m: Scalar,
    track: &Vec<(usize, usize)>,
    numerics: &LandmarkNumerics<L, W, T, D, R>,
) -> (start: Option<Point3>) where
    L: Fn(&StereoRig, Scalar) -> Scalar,
    W: Fn(&Pose, &Point3) -> Point3,
    T: Fn(&StereoRig, &Vec<PosedView>) -> Option<DltSolution>,
    D: Fn(&Pose, &Point3) -> Scalar,
    R: Fn(&StereoRig, &PosedView, &Point3) -> ViewResidual,

    requires
        sequence@.is_complete(),
        is_within(track@, sequence.poses@.len()),
        numerics.callable(),
    ensures
        numerics.is_multi_view_start(sequence@, max_initial_depth_m, track@, start),
{
    let tables = build_feature_tables(sequence);
    let views = collect_views(sequence, &tables, track);
    triangulate_views(sequence, max_initial_depth_m, &views, numerics, Ghost(track@))
}

fn start_landmark<L, W, T, D, R>(
    sequence: &StereoSequence,
    tables: &Vec<BTreeMap<usize, StereoFeature>>,
    gates: &TrackGates,
    track: &Vec<(usize, usize)>,
    views: &Vec<TrackView>,
    numerics: &LandmarkNumerics<L, W, T, D, R>,
) -> (start: Option<Point3>) where
    L: Fn(&StereoRig, Scalar) -> Scalar,
    W: Fn(&Pose, &Point3) -> Point3,
    T: Fn(&StereoRig, &Vec<PosedView>) -> Option<DltSolution>,
    D: Fn(&Pose, &Point3) -> Scalar,
    R: Fn(&StereoRig, &PosedView, &Point3) -> ViewResidual,

    requires
        sequence@.is_complete(),
        are_feature_tables(tables@, sequence@),
        is_within(track@, sequence.poses@.len()),
        views@ == sequence@.track_views(track@),
        views_within(views@, sequence.poses@.len()),
        numerics.callable(),
    ensures
        numerics.is_start(sequence@, *gates, track@, start),
{
    let max_depth = gates.max_initial_depth_m;
    match gates.landmark_init {
        LandmarkInit::StereoSingleFrame => initial_landmark_world(
            sequence,
            tables,
            max_depth,
            track,
            numerics,
        ),
        LandmarkInit::MultiViewDlt => {
            let joint = triangulate_views(
                sequence,
                max_depth,
                views,
                numerics,
                Ghost(track@),
            );
            if joint.is_some() {
                joint
            } else {
                initial_landmark_world(sequence, tables, max_depth, track, numerics)
            }
        },
    }
}

fn passes_gate<L, W, T, D, R>(
    sequence: &StereoSequence,
    threshold: Option<Scalar>,
    views: &Vec<TrackView>,
    world: &Point3,
    numerics: &LandmarkNumerics<L, W, T, D, R>,
) -> (passes: bool) where
    L: Fn(&StereoRig, Scalar) -> Scalar,
    W: Fn(&Pose, &Point3) -> Point3,
    T: Fn(&StereoRig, &Vec<PosedView>) -> Option<DltSolution>,
    D: Fn(&Pose, &Point3) -> Scalar,
    R: Fn(&StereoRig, &PosedView, &Point3) -> ViewResidual,

    requires
        views_within(views@, sequence.poses@.len()),
        numerics.callable(),
    ensures
        numerics.is_gate(sequence@, threshold, views@, *world, passes),
{
    if sequence.rig.intrinsics.is_none() {
        return true;
    }
    match threshold {
        None => true,
        Some(limit) => {
            let ghost mut residuals: Seq<ViewResidual> = Seq::empty();
            let mut k: usize = 0;
            while k < views.len()
                invariant
                    k <= views.len(),
                    threshold == Some(limit),
                    sequence.rig.intrinsics is Some,
                    views_within(views@, sequence.poses@.len()),
                    numerics.callable(),
                    residuals.len() == k,
                    numerics.are_residuals(sequence@, views@, *world, residuals),
                    forall|j: int| 0 <= j < k ==> agrees(#[trigger] residuals[j], limit),
                decreases views.len() - k,
            {
                assert(views@[k as int].frame < sequence.poses@.len());
                let posed = PosedView { pose: sequence.poses[views[k].frame], view: views[k] };
                let residual = (numerics.residual)(sequence.rig, &posed, world);
                let ghost before = residuals;
                proof {
                    residuals = residuals.push(residual);
                    assert forall|j: int| 0 <= j < residuals.len() implies call_ensures(
                        numerics.residual,
                        (
                            &sequence@.rig,
                            &(PosedView {
                                pose: sequence@.poses[views@[j].frame as int],
                                view: views@[j],
                            }),
                            world,
                        ),
                        #[trigger] residuals[j],
                    ) by {
                        if j < k {
                            assert(before[j] == residuals[j]);
                        }
                    }
                    assert forall|j: int| 0 <= j < residuals.len() - 1 implies agrees(
                        #[trigger] residuals[j],
                        limit,
                    ) by {
                        assert(before[j] == residuals[j]);
                    }
                }
                if residual.depth.le(Scalar::zero()) || !residual.norm.is_finite() || limit.lt(
                    residual.norm,
                ) {
                    assert(numerics.are_residuals(sequence@, views@, *world, residuals));
                    return false;
                }
                k += 1;
            }
            assert(numerics.are_residuals(sequence@, views@, *world, residuals));
            true
        },
    }
}

/// What becomes of one track.
fn judge_track<L, W, T, D, R>(
    sequence: &StereoSequence,
    tables: &Vec<BTreeMap<usize, StereoFeature>>,
    gates: &TrackGates,
    limit: Option<Scalar>,
    track: &Vec<(usize, usize)>,
    numerics: &LandmarkNumerics<L, W, T, D, R>,
) -> (verdict: Option<(Point3, Vec<TrackView>)>) where
    L: Fn(&StereoRig, Scalar) -> Scalar,
    W: Fn(&Pose, &Point3) -> Point3,
    T: Fn(&StereoRig, &Vec<PosedView>) -> Option<DltSolution>,
    D: Fn(&Pose, &Point3) -> Scalar,
    R: Fn(&StereoRig, &PosedView, &Point3) -> ViewResidual,

    requires
        sequence@.is_complete(),
        are_feature_tables(tables@, sequence@),
        track.len() > 0,
        is_within(track@, sequence.poses@.len()),
        numerics.callable(),
    ensures
        numerics.is_verdict(sequence@, *gates, limit, track@, verdict_model(verdict)),
{
    match limit {
        None => {},
        Some(row) => {
            let slot = track[0];
            assert(track@[0].0 < sequence.poses@.len());
            let left = &sequence.left[slot.0].keypoints;
            assert(sequence@.left[slot.0 as int] == left@);
            if slot.1 >= left.len() {
                return None;
            }
            if !left[slot.1].y.lt(row) {
                return None;
            }
        },
    }
    let views = collect_views(sequence, tables, track);
    let start = start_landmark(sequence, tables, gates, track, &views, numerics);
    assert(numerics.is_start(sequence@, *gates, track@, start));
    match start {
        None => None,
        Some(world) => {
            if !passes_gate(sequence, gates.max_init_residual_px, &views, &world, numerics) {
                return None;
            }
            if views.len() < gates.min_track_length {
                return None;
            }
            Some((world, views))
        },
    }
}

/// A verdict in the contracts.
pub open spec fn verdict_model(verdict: Option<(Point3, Vec<TrackView>)>) -> Option<LandmarkModel> {
    match verdict {
        Some((position, views)) => Some(LandmarkModel { position, views: views@ }),
        None => None,
    }
}

/// The landmarks that the tracks give, and their measurements.
pub open spec fn is_landmark_choice<L, W, T, D, R>(
    numerics: LandmarkNumerics<L, W, T, D, R>,
    scene: Scene,
    gates: TrackGates,
    fraction: Option<Scalar>,
    tracks: Seq<Seq<(usize, usize)>>,
    landmarks: Seq<LandmarkModel>,
) -> bool where
    L: Fn(&StereoRig, Scalar) -> Scalar,
    W: Fn(&Pose, &Point3) -> Point3,
    T: Fn(&StereoRig, &Vec<PosedView>) -> Option<DltSolution>,
    D: Fn(&Pose, &Point3) -> Scalar,
    R: Fn(&StereoRig, &PosedView, &Point3) -> ViewResidual,
 {
    exists|limit: Option<Scalar>, verdicts: Seq<Option<LandmarkModel>>|
        numerics.is_row_limit(scene.rig, fraction, limit) && #[trigger] numerics.are_verdicts(
            scene,
            gates,
            limit,
            tracks,
            verdicts,
        ) && landmarks == accepted(verdicts)
}

/// The landmarks in the contracts.
pub open spec fn landmark_models(seeds: Seq<LandmarkSeed>) -> Seq<LandmarkModel> {
    seeds.map_values(|seed: LandmarkSeed| seed@)
}

/// The seeds are numbered from zero.
pub open spec fn are_numbered(seeds: Seq<LandmarkSeed>) -> bool {
    forall|k: int| 0 <= k < seeds.len() ==> (#[trigger] seeds[k]).id == k
}

fn push_observations(
    observations: &mut Vec<StereoObservation>,
    id: u64,
    views: &Vec<TrackView>,
)
    ensures
        final(observations)@ == old(observations)@ + observations_of(id as nat, views@),
{
    let ghost before = observations@;
    let mut k: usize = 0;
    while k < views.len()
        invariant
            k <= views.len(),
            observations@ == before + observations_of(id as nat, views@.take(k as int)),
        decreases views.len() - k,
    {
        observations.push(
            StereoObservation {
                keyframe_id: views[k].frame as u64,
                landmark_id: id,
                xy: views[k].left,
                u_right: views[k].u_right,
            },
        );
        assert(observations@ =~= before + observations_of(id as nat, views@.take(k + 1)));
        k += 1;
    }
    proof {
        lemma_take_all(views@);
    }
}

/// Judges every track, and numbers the landmarks in the order of their tracks. `fraction`
/// bounds the rows that a track may start in.
pub fn choose_landmarks<L, W, T, D, R>(
    sequence: &StereoSequence,
    gates: &TrackGates,
    fraction: Option<Scalar>,
    tracks: &Vec<Vec<(usize, usize)>>,
    numerics: &LandmarkNumerics<L, W, T, D, R>,
) -> (chosen: (Vec<LandmarkSeed>, Vec<StereoObservation>)) where
    L: Fn(&StereoRig, Scalar) -> Scalar,
    W: Fn(&Pose, &Point3) -> Point3,
    T: Fn(&StereoRig, &Vec<PosedView>) -> Option<DltSolution>,
    D: Fn(&Pose, &Point3) -> Scalar,
    R: Fn(&StereoRig, &PosedView, &Point3) -> ViewResidual,

    requires
        sequence@.is_complete(),
        forall|t: int|
            0 <= t < tracks.len() ==> (#[trigger] tracks[t]).len() > 0 && is_within(
                tracks[t]@,
                sequence.poses@.len(),
            ),
        numerics.callable(),
    ensures
        is_landmark_choice(
            *numerics,
            sequence@,
            *gates,
            fraction,
            lists(tracks@),
            landmark_models(chosen.0@),
        ),
        are_numbered(chosen.0@),
        chosen.1@ == all_observations(landmark_models(chosen.0@)),
{
    let limit: Option<Scalar> = match fraction {
        None => None,
        Some(value) => Some((numerics.row_limit)(sequence.rig, value)),
    };
    let tables = build_feature_tables(sequence);
    let mut seeds: Vec<LandmarkSeed> = Vec::new();
    let mut observations: Vec<StereoObservation> = Vec::new();
    let ghost mut verdicts: Seq<Option<LandmarkModel>> = Seq::empty();
    let ghost all = lists(tracks@);
    let mut t: usize = 0;
    assert(landmark_models(seeds@) =~= Seq::empty());
    while t < tracks.len()
        invariant
            t <= tracks.len(),
            all == lists(tracks@),
            sequence@.is_complete(),
            are_feature_tables(tables@, sequence@),
            forall|k: int|
                0 <= k < tracks.len() ==> (#[trigger] tracks[k]).len() > 0 && is_within(
                    tracks[k]@,
                    sequence.poses@.len(),
                ),
            numerics.callable(),
            verdicts.len() == t,
            forall|k: int|
                0 <= k < t ==> numerics.is_verdict(
                    sequence@,
                    *gates,
                    limit,
                    all[k],
                    #[trigger] verdicts[k],
                ),
            seeds.len() <= t,
            landmark_models(seeds@) == accepted(verdicts),
            are_numbered(seeds@),
            observations@ == all_observations(landmark_models(seeds@)),
        decreases tracks.len() - t,
    {
        let verdict = judge_track(sequence, &tables, gates, limit, &tracks[t], numerics);
        let ghost before = verdicts;
        proof {
            verdicts = verdicts.push(verdict_model(verdict));
            assert(verdicts.drop_last() =~= before);
            assert(all[t as int] == tracks[t as int]@);
            assert forall|k: int| 0 <= k < t + 1 implies numerics.is_verdict(
                sequence@,
                *gates,
                limit,
                all[k],
                #[trigger] verdicts[k],
            ) by {
                if k < t {
                    assert(verdicts[k] == before[k]);
                }
            }
        }
        match verdict {
            Some((position, views)) => {
                let id: u64 = seeds.len() as u64;
                push_observations(&mut observations, id, &views);
                let ghost earlier = seeds@;
                seeds.push(LandmarkSeed { id, position, views });
                proof {
                    assert(landmark_models(seeds@) =~= landmark_models(earlier).push(
                        seeds@.last()@,
                    ));
                    assert(landmark_models(seeds@).drop_last() =~= landmark_models(earlier));
                }
            },
            None => {},
        }
        t += 1;
    }
    assert(numerics.are_verdicts(sequence@, *gates, limit, all, verdicts));
    (seeds, observations)
}

/// The feature at `f` belongs to the keypoint, and no later one does.
pub open spec fn is_last_feature(features: Seq<StereoFeature>, left_index: usize, f: int) -> bool {
    &&& 0 <= f < features.len()
    &&& features[f].left_index == left_index
    &&& forall|later: int|
        f < later < features.len() ==> (#[trigger] features[later]).left_index != left_index
}

/// A keypoint's feature is the last one that belongs to it, and none where none does.
pub proof fn the_last_feature_counts(features: Seq<StereoFeature>, left_index: usize) -> (f: int)
    ensures
        last_feature(features, left_index) matches Some(feature) ==> is_last_feature(
            features,
            left_index,
            f,
        ) && features[f] == feature,
        last_feature(features, left_index) is None ==> forall|k: int|
            0 <= k < features.len() ==> (#[trigger] features[k]).left_index != left_index,
        forall|k: int| #[trigger]
            is_last_feature(features, left_index, k) ==> last_feature(features, left_index)
                == Some(features[k]),
    decreases features.len(),
{
    if features.len() == 0 {
        0
    } else {
        let rest = features.drop_last();
        let n = rest.len() as int;
        let f = the_last_feature_counts(rest, left_index);
        assert forall|k: int| 0 <= k < n implies #[trigger] features[k] == rest[k] by {}
        assert forall|k: int| #[trigger]
            is_last_feature(features, left_index, k) implies last_feature(features, left_index)
            == Some(features[k]) by {
            if k < n {
                assert(features[n].left_index != left_index);
                assert forall|later: int| k < later < rest.len() implies (
                #[trigger] rest[later]).left_index != left_index by {
                    assert(features[later].left_index != left_index);
                }
                assert(is_last_feature(rest, left_index, k));
            }
        }
        if features.last().left_index == left_index {
            n
        } else {
            f
        }
    }
}

/// The keypoint at the slot has a stereo point that can start a landmark: it is finite, in
/// front of the camera, and not deeper than allowed.
pub open spec fn is_seed(
    scene: Scene,
    slot: (usize, usize),
    max_depth: Scalar,
    point: Point3,
) -> bool {
    &&& exists|f: int|
        #[trigger] is_last_feature(scene.stereo[slot.0 as int], slot.1, f)
            && scene.stereo[slot.0 as int][f].point_cam == point
    &&& point.x.is_finite() && point.y.is_finite() && point.z.is_finite()
    &&& Scalar::zero().lt(point.z)
    &&& !max_depth.lt(point.z)
}

proof fn lemma_seed_point(scene: Scene, slot: (usize, usize), max_depth: Scalar)
    ensures
        forall|point: Point3| #[trigger]
            is_seed(scene, slot, max_depth, point) <==> scene.seed_point(slot, max_depth) == Some(
                point,
            ),
{
    let features = scene.stereo[slot.0 as int];
    let f = the_last_feature_counts(features, slot.1);
    assert forall|point: Point3| #[trigger]
        is_seed(scene, slot, max_depth, point) <==> scene.seed_point(slot, max_depth) == Some(
            point,
        ) by {
        if scene.seed_point(slot, max_depth) == Some(point) {
            assert(is_last_feature(features, slot.1, f) && features[f].point_cam == point);
        }
    }
}

/// A single-frame start comes from the first keypoint of the track that can start a
/// landmark, and there is one wherever there is such a keypoint.
pub proof fn landmarks_start_at_the_first_seed(
    scene: Scene,
    track: Seq<(usize, usize)>,
    max_depth: Scalar,
    start: int,
) -> (k: int)
    requires
        0 <= start <= track.len(),
    ensures
        scene.first_seed(track, max_depth, start) matches Some((frame, point)) ==> start <= k
            < track.len() && frame == track[k].0 && is_seed(scene, track[k], max_depth, point)
            && forall|earlier: int, other: Point3|
            start <= earlier < k ==> !#[trigger] is_seed(scene, track[earlier], max_depth, other),
        scene.first_seed(track, max_depth, start) is None ==> forall|slot: int, other: Point3|
            start <= slot < track.len() ==> !#[trigger] is_seed(
                scene,
                track[slot],
                max_depth,
                other,
            ),
    decreases track.len() - start,
{
    if start >= track.len() {
        start
    } else {
        lemma_seed_point(scene, track[start], max_depth);
        if scene.seed_point(track[start], max_depth) is Some {
            start
        } else {
            landmarks_start_at_the_first_seed(scene, track, max_depth, start + 1)
        }
    }
}

/// The view shows the keypoint at the slot, and the right image's keypoint that its
/// feature is matched with.
pub open spec fn is_view_of(scene: Scene, slot: (usize, usize), view: TrackView) -> bool {
    let left = scene.left[slot.0 as int];
    let right = scene.right[slot.0 as int];
    &&& view.frame == slot.0
    &&& view.left_index == slot.1
    &&& slot.1 < left.len()
    &&& view.left == left[slot.1 as int]
    &&& exists|f: int|
        #[trigger] is_last_feature(scene.stereo[slot.0 as int], slot.1, f)
            && scene.stereo[slot.0 as int][f].right_index < right.len() && view.u_right
            == right[scene.stereo[slot.0 as int][f].right_index as int].x
}

/// The stereo views of a track are those of its keypoints that both cameras see, in order.
pub proof fn views_follow_the_track(scene: Scene, track: Seq<(usize, usize)>) -> (at: Seq<int>)
    ensures
        lists_kept(
            at,
            track.len(),
            |k: int| exists|view: TrackView| #[trigger] is_view_of(scene, track[k], view),
        ),
        scene.track_views(track).len() == at.len(),
        forall|k: int|
            0 <= k < at.len() ==> is_view_of(
                scene,
                track[#[trigger] at[k]],
                scene.track_views(track)[k],
            ),
    decreases track.len(),
{
    let kept = |k: int| exists|view: TrackView| #[trigger] is_view_of(scene, track[k], view);
    if track.len() == 0 {
        Seq::empty()
    } else {
        let rest = track.drop_last();
        let kept_before = |k: int|
            exists|view: TrackView| #[trigger] is_view_of(scene, rest[k], view);
        let before = views_follow_the_track(scene, rest);
        let n = rest.len() as int;
        let slot = track[n];
        let f = the_last_feature_counts(scene.stereo[slot.0 as int], slot.1);
        assert forall|k: int| 0 <= k < n implies #[trigger] kept(k) == kept_before(k) by {
            assert(rest[k] == track[k]);
        }
        assert forall|k: int| 0 <= k < before.len() implies rest[#[trigger] before[k]]
            == track[before[k]] by {}
        assert(lists_kept(before, rest.len(), kept));
        crate::sequences::lemma_lists_one_more(before, rest.len(), kept);
        if let Some(view) = scene.view_at(slot) {
            assert(is_last_feature(scene.stereo[slot.0 as int], slot.1, f));
            assert(is_view_of(scene, slot, view));
            assert(kept(n));
            let at = before.push(n);
            assert(at.last() == n);
            at
        } else {
            assert(!kept(n));
            before
        }
    }
}

/// What is known of a track that became a landmark: its first keypoint lies above the row
/// limit; enough of its keypoints are seen by both cameras; and where residuals are gated,
/// every view has one, which is finite and not above the threshold, with the point not
/// behind the camera.
pub proof fn landmarks_pass_every_gate<L, W, T, D, R>(
    numerics: LandmarkNumerics<L, W, T, D, R>,
    scene: Scene,
    gates: TrackGates,
    limit: Option<Scalar>,
    track: Seq<(usize, usize)>,
    landmark: LandmarkModel,
    k: int,
) where
    L: Fn(&StereoRig, Scalar) -> Scalar,
    W: Fn(&Pose, &Point3) -> Point3,
    T: Fn(&StereoRig, &Vec<PosedView>) -> Option<DltSolution>,
    D: Fn(&Pose, &Point3) -> Scalar,
    R: Fn(&StereoRig, &PosedView, &Point3) -> ViewResidual,

    requires
        numerics.is_verdict(scene, gates, limit, track, Some(landmark)),
        0 <= k < landmark.views.len(),
    ensures
        landmark.views == scene.track_views(track),
        landmark.views.len() >= gates.min_track_length,
        limit matches Some(row) ==> track[0].1 < scene.left[track[0].0 as int].len()
            && scene.left[track[0].0 as int][track[0].1 as int].y.lt(row),
        gates.max_init_residual_px matches Some(threshold) ==> (scene.rig.intrinsics is Some
            ==> exists|residual: ViewResidual|
            {
                &&& #[trigger] call_ensures(
                    numerics.residual,
                    (
                        &scene.rig,
                        &(PosedView {
                            pose: scene.poses[landmark.views[k].frame as int],
                            view: landmark.views[k],
                        }),
                        &landmark.position,
                    ),
                    residual,
                )
                &&& !residual.depth.le(Scalar::zero())
                &&& residual.norm.is_finite()
                &&& !threshold.lt(residual.norm)
            }),
{
    let views = scene.track_views(track);
    if gates.max_init_residual_px is Some && scene.rig.intrinsics is Some {
        let threshold = gates.max_init_residual_px->0;
        assert(numerics.is_gate(
            scene,
            gates.max_init_residual_px,
            views,
            landmark.position,
            true,
        ));
        let residuals = choose|residuals: Seq<ViewResidual>| #[trigger]
            numerics.are_residuals(scene, views, landmark.position, residuals) && (forall|k: int|
                0 <= k < residuals.len() - 1 ==> agrees(#[trigger] residuals[k], threshold))
                && residuals.len() == views.len() && (residuals.len() > 0 ==> agrees(
                residuals.last(),
                threshold,
            ));
        let residual = residuals[k];
        assert(agrees(residual, threshold));
    }
}

/// Where a landmark starts: at the first usable stereo point of its track; or, where all
/// views are used at once and suffice, at their triangulation, which is finite, has a
/// proper weight, and lies in front of the first view and not deeper than allowed.
pub proof fn landmarks_start_in_front_of_the_camera<L, W, T, D, R>(
    numerics: LandmarkNumerics<L, W, T, D, R>,
    scene: Scene,
    gates: TrackGates,
    track: Seq<(usize, usize)>,
    world: Point3,
) where
    L: Fn(&StereoRig, Scalar) -> Scalar,
    W: Fn(&Pose, &Point3) -> Point3,
    T: Fn(&StereoRig, &Vec<PosedView>) -> Option<DltSolution>,
    D: Fn(&Pose, &Point3) -> Scalar,
    R: Fn(&StereoRig, &PosedView, &Point3) -> ViewResidual,

    requires
        numerics.is_start(scene, gates, track, Some(world)),
    ensures
        starts_at_a_seed(numerics, scene, gates.max_initial_depth_m, track, world) || (
        gates.landmark_init is MultiViewDlt && scene.track_views(track).len() >= 2
            && scene.rig.intrinsics is Some && world.x.is_finite() && world.y.is_finite()
            && world.z.is_finite() && exists|depth: Scalar|
            {
                &&& #[trigger] call_ensures(
                    numerics.depth,
                    (&scene.poses[scene.track_views(track)[0].frame as int], &world),
                    depth,
                )
                &&& depth.is_finite()
                &&& Scalar::zero().lt(depth)
                &&& !gates.max_initial_depth_m.lt(depth)
            }),
{
    let max_depth = gates.max_initial_depth_m;
    if numerics.is_single_frame_start(scene, max_depth, track, Some(world)) {
        let k = landmarks_start_at_the_first_seed(scene, track, max_depth, 0);
        let (frame, point) = scene.first_seed(track, max_depth, 0)->0;
        assert(is_seed(scene, track[k], max_depth, point) && call_ensures(
            numerics.to_world,
            (&scene.poses[track[k].0 as int], &point),
            world,
        ));
    } else {
        let views = scene.track_views(track);
        assert(numerics.is_multi_view_start(scene, max_depth, track, Some(world)));
        let solution = choose|solution: Option<DltSolution>| #[trigger]
            numerics.is_triangulation(scene, views, solution) && (match solution {
                None => false,
                Some(found) => is_proper(found) && exists|depth: Scalar| #[trigger]
                    call_ensures(
                        numerics.depth,
                        (&scene.poses[views[0].frame as int], &found.point),
                        depth,
                    ) && Some(world) == (if in_range(depth, max_depth) {
                        Some(found.point)
                    } else {
                        None
                    }),
            });
        let found = solution->0;
        let depth = choose|depth: Scalar| #[trigger]
            call_ensures(
                numerics.depth,
                (&scene.poses[views[0].frame as int], &found.point),
                depth,
            ) && Some(world) == (if in_range(depth, max_depth) {
                Some(found.point)
            } else {
                None
            });
        assert(in_range(depth, max_depth));
    }
}

/// The landmark starts where the first usable stereo point of its track lies in the world.
pub open spec fn starts_at_a_seed<L, W, T, D, R>(
    numerics: LandmarkNumerics<L, W, T, D, R>,
    scene: Scene,
    max_depth: Scalar,
    track: Seq<(usize, usize)>,
    world: Point3,
) -> bool where
    L: Fn(&StereoRig, Scalar) -> Scalar,
    W: Fn(&Pose, &Point3) -> Point3,
    T: Fn(&StereoRig, &Vec<PosedView>) -> Option<DltSolution>,
    D: Fn(&Pose, &Point3) -> Scalar,
    R: Fn(&StereoRig, &PosedView, &Point3) -> ViewResidual,
 {
    exists|k: int, point: Point3|
        {
            &&& 0 <= k < track.len()
            &&& #[trigger] is_seed(scene, track[k], max_depth, point)
            &&& call_ensures(numerics.to_world, (&scene.poses[track[k].0 as int], &point), world)
            &&& forall|earlier: int, other: Point3|
                0 <= earlier < k ==> !#[trigger] is_seed(scene, track[earlier], max_depth, other)
        }
}

/// Why a track becomes no landmark: it does not start above the row limit; none of its
/// keypoints can start it; a view disagrees with the start; or too few views are left.
pub proof fn tracks_are_dropped_for_a_reason<L, W, T, D, R>(
    numerics: LandmarkNumerics<L, W, T, D, R>,
    scene: Scene,
    gates: TrackGates,
    limit: Option<Scalar>,
    track: Seq<(usize, usize)>,
) where
    L: Fn(&StereoRig, Scalar) -> Scalar,
    W: Fn(&Pose, &Point3) -> Point3,
    T: Fn(&StereoRig, &Vec<PosedView>) -> Option<DltSolution>,
    D: Fn(&Pose, &Point3) -> Scalar,
    R: Fn(&StereoRig, &PosedView, &Point3) -> ViewResidual,

    requires
        numerics.is_verdict(scene, gates, limit, track, None),
    ensures
        ({
            let views = scene.track_views(track);
            ||| limit matches Some(row) && (track[0].1 >= scene.left[track[0].0 as int].len()
                || !scene.left[track[0].0 as int][track[0].1 as int].y.lt(row))
            ||| forall|k: int, point: Point3|
                0 <= k < track.len() ==> !#[trigger] is_seed(
                    scene,
                    track[k],
                    gates.max_initial_depth_m,
                    point,
                )
            ||| views.len() < gates.min_track_length
            ||| gates.max_init_residual_px matches Some(threshold) && exists|
                k: int,
                world: Point3,
                residual: ViewResidual,
            |
                {
                    &&& 0 <= k < views.len()
                    &&& #[trigger] call_ensures(
                        numerics.residual,
                        (
                            &scene.rig,
                            &(PosedView { pose: scene.poses[views[k].frame as int], view: views[k] }),
                            &world,
                        ),
                        residual,
                    )
                    &&& residual.depth.le(Scalar::zero()) || !residual.norm.is_finite()
                        || threshold.lt(residual.norm)
                }
        }),
{
    let views = scene.track_views(track);
    if starts_above(scene, limit, track[0]) {
        let start = choose|start: Option<Point3>| #[trigger]
            numerics.is_start(scene, gates, track, start) && (match start {
                None => true,
                Some(world) => {
                    ||| numerics.is_gate(scene, gates.max_init_residual_px, views, world, false)
                    ||| views.len() < gates.min_track_length
                },
            });
        match start {
            None => {
                landmarks_start_at_the_first_seed(scene, track, gates.max_initial_depth_m, 0);
            },
            Some(world) => {
                if views.len() >= gates.min_track_length {
                    let threshold = gates.max_init_residual_px->0;
                    let residuals = choose|residuals: Seq<ViewResidual>| #[trigger]
                        numerics.are_residuals(scene, views, world, residuals) && residuals.len()
                            > 0 && !agrees(residuals.last(), threshold);
                    let k = residuals.len() - 1;
                    assert(!agrees(residuals[k], threshold));
                }
            },
        }
    }
}

/// The landmarks are those of the tracks that became one, in the order of the tracks.
pub proof fn landmarks_come_in_track_order(verdicts: Seq<Option<LandmarkModel>>) -> (at: Seq<int>)
    ensures
        lists_kept(at, verdicts.len(), |t: int| verdicts[t] is Some),
        accepted(verdicts).len() == at.len(),
        forall|k: int|
            0 <= k < at.len() ==> verdicts[#[trigger] at[k]] == Some(accepted(verdicts)[k]),
    decreases verdicts.len(),
{
    let kept = |t: int| verdicts[t] is Some;
    if verdicts.len() == 0 {
        Seq::empty()
    } else {
        let rest = verdicts.drop_last();
        let n = rest.len() as int;
        let before = landmarks_come_in_track_order(rest);
        let kept_before = |t: int| rest[t] is Some;
        assert forall|t: int| 0 <= t < n implies #[trigger] kept(t) == kept_before(t) by {}
        assert(lists_kept(before, rest.len(), kept));
        crate::sequences::lemma_lists_one_more(before, rest.len(), kept);
        assert forall|k: int| 0 <= k < before.len() implies rest[#[trigger] before[k]]
            == verdicts[before[k]] by {}
        if verdicts[n] is Some {
            assert(kept(n));
            let at = before.push(n);
            assert(at.last() == n);
            at
        } else {
            before
        }
    }
}

/// Every view of every landmark is observed once, landmark by landmark: the observation
/// names the view's frame and the landmark's number, and holds its three coordinates.
pub proof fn every_view_is_observed(landmarks: Seq<LandmarkModel>) -> (at: Seq<(int, int)>)
    requires
        landmarks.len() <= u64::MAX,
    ensures
        at.len() == all_observations(landmarks).len(),
        forall|k: int|
            0 <= k < at.len() ==> ({
                let (l, v) = #[trigger] at[k];
                let observation = all_observations(landmarks)[k];
                &&& 0 <= l < landmarks.len()
                &&& 0 <= v < landmarks[l].views.len()
                &&& observation.landmark_id == l
                &&& observation.keyframe_id == landmarks[l].views[v].frame as u64
                &&& observation.xy == landmarks[l].views[v].left
                &&& observation.u_right == landmarks[l].views[v].u_right
            }),
        forall|l: int, v: int|
            0 <= l < landmarks.len() && 0 <= v < landmarks[l].views.len() ==> #[trigger] at.contains(
                (l, v),
            ),
        forall|i: int, j: int|
            0 <= i < j < at.len() ==> (#[trigger] at[i]).0 < (#[trigger] at[j]).0 || (at[i].0
                == at[j].0 && at[i].1 < at[j].1),
    decreases landmarks.len(),
{
    if landmarks.len() == 0 {
        Seq::empty()
    } else {
        let rest = landmarks.drop_last();
        let n = rest.len() as int;
        let before = every_view_is_observed(rest);
        let views = landmarks[n].views;
        let more = Seq::new(views.len(), |v: int| (n, v));
        let at = before + more;
        let all = all_observations(landmarks);
        assert forall|k: int| 0 <= k < at.len() implies ({
            let (l, v) = #[trigger] at[k];
            &&& 0 <= l < landmarks.len()
            &&& 0 <= v < landmarks[l].views.len()
            &&& all[k].landmark_id == l
            &&& all[k].keyframe_id == landmarks[l].views[v].frame as u64
            &&& all[k].xy == landmarks[l].views[v].left
            &&& all[k].u_right == landmarks[l].views[v].u_right
        }) by {
            if k < before.len() {
                assert(at[k] == before[k]);
                assert(all[k] == all_observations(rest)[k]);
                assert(rest[before[k].0] == landmarks[before[k].0]);
            } else {
                assert(all[k] == observations_of(n as nat, views)[k - before.len()]);
            }
        }
        assert forall|l: int, v: int|
            0 <= l < landmarks.len() && 0 <= v
                < landmarks[l].views.len() implies #[trigger] at.contains((l, v)) by {
            if l < n {
                assert(rest[l] == landmarks[l]);
                assert(before.contains((l, v)));
                assert(at[before.index_of((l, v))] == (l, v));
            } else {
                assert(at[before.len() + v] == (l, v));
            }
        }
        assert forall|i: int, j: int| 0 <= i < j < at.len() implies (#[trigger] at[i]).0 < (
        #[trigger] at[j]).0 || (at[i].0 == at[j].0 && at[i].1 < at[j].1) by {
            if j < before.len() {
                assert(at[i] == before[i] && at[j] == before[j]);
            } else if i < before.len() {
                assert(at[i] == before[i]);
            }
        }
        at
    }
}

/// Every track is judged once, under the row limit that the fraction stands for, and the
/// landmarks are those of the tracks that became one, in the order of the tracks.
pub proof fn every_track_is_judged<L, W, T, D, R>(
    numerics: LandmarkNumerics<L, W, T, D, R>,
    scene: Scene,
    gates: TrackGates,
    fraction: Option<Scalar>,
    tracks: Seq<Seq<(usize, usize)>>,
    landmarks: Seq<LandmarkModel>,
) -> (found: (Option<Scalar>, Seq<Option<LandmarkModel>>, Seq<int>)) where
    L: Fn(&StereoRig, Scalar) -> Scalar,
    W: Fn(&Pose, &Point3) -> Point3,
    T: Fn(&StereoRig, &Vec<PosedView>) -> Option<DltSolution>,
    D: Fn(&Pose, &Point3) -> Scalar,
    R: Fn(&StereoRig, &PosedView, &Point3) -> ViewResidual,

    requires
        is_landmark_choice(numerics, scene, gates, fraction, tracks, landmarks),
    ensures
        ({
            let (limit, verdicts, at) = found;
            &&& fraction is None ==> limit is None
            &&& fraction matches Some(value) ==> (limit matches Some(row) && call_ensures(
                numerics.row_limit,
                (&scene.rig, value),
                row,
            ))
            &&& verdicts.len() == tracks.len()
            &&& forall|t: int|
                0 <= t < tracks.len() ==> numerics.is_verdict(
                    scene,
                    gates,
                    limit,
                    tracks[t],
                    #[trigger] verdicts[t],
                )
            &&& lists_kept(at, tracks.len(), |t: int| verdicts[t] is Some)
            &&& landmarks.len() == at.len()
            &&& forall|k: int|
                0 <= k < at.len() ==> verdicts[#[trigger] at[k]] == Some(landmarks[k])
        }),
{
    let (limit, verdicts) = choose|limit: Option<Scalar>, verdicts: Seq<Option<LandmarkModel>>|
        numerics.is_row_limit(scene.rig, fraction, limit) && #[trigger] numerics.are_verdicts(
            scene,
            gates,
            limit,
            tracks,
            verdicts,
        ) && landmarks == accepted(verdicts);
    let at = landmarks_come_in_track_order(verdicts);
    (limit, verdicts, at)
}

} // verus!
