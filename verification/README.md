# visloc_slam

Decisions of a visual SLAM back end, verified with Verus: which submaps are aligned and
when an alignment is refused, how a sequence is cut into submaps, which factors of a
keyframe graph stay active, how a stereo trajectory is refined window by window, when a
visual-inertial initialisation is trusted, which loops are closed.

The library holds no floating point. A number is a `Scalar`: it is carried, compared and
tested for finiteness, in the order that IEEE 754 gives its bits. Arithmetic comes in
through functions that the caller supplies, bundled in a `..Numerics` structure for each
algorithm. The contracts say which function is asked for what, what becomes of each
answer, and what follows from all of them. Of the functions they ask only that they can be
called, and the few things about the shape of an answer that the structure's `callable` (or
`is_callable`) lists, such as one residual for each match.

## Layout

| path | content |
| --- | --- |
| `src/scalar.rs`, `geometry.rs`, `bundle.rs` | numbers, points, poses, solver summaries |
| `src/order.rs`, `sequences.rs`, `statistics.rs`, `text.rs` | sorting, sequence facts, medians, decimal text |
| `src/sampling.rs` | seeded sampling of pairs and triples |
| `src/submap_alignment.rs`, `rig_submap_alignment.rs` | similarity between submaps, and its refusals |
| `src/submap_overlap.rs` | what two submaps share |
| `src/submap_partition.rs`, `submap_widening.rs` | cutting a sequence, and widening windows that fail |
| `src/sim3_pose_graph.rs` | damped least squares on similarities |
| `src/spanning_tree.rs`, `dense_matrix.rs`, `sparsification.rs` | tree-shaped and block-diagonal priors |
| `src/sparse_factor_graph.rs`, `scored_map.rs` | active and retired keyframe factors |
| `src/feature_tracks.rs`, `stereo_landmarks.rs`, `stereo_vo_ba.rs` | tracks, landmarks, windowed refinement |
| `src/imu_text.rs`, `imu_windows.rs`, `stereo_imu.rs` | inertial samples: text, slicing, use in refinement |
| `src/vi_initializer.rs`, `vi_alignment.rs`, `vi_motion_initializer.rs` | initialisation at rest and in motion |
| `src/loop_candidates.rs`, `vo_loop_closure.rs` | loop candidates, verification, closing |
| `tests/` | the library at work on synthetic scenes, with floating point on the test's side |
| `app/` | the floating point for each algorithm, and entry points that put both together |

What is believed without proof stands in `src/sampling.rs`: the standard generator of the
`rand` crate, its seeding, and a draw below a bound.

Laws that span several operations are public proof functions beside the operations, such
as `partition_has_no_short_tail`, `widening_keeps_the_cover`, `off_tree_blocks_are_zero` or
`optimization_keeps_gauge_and_cost`. Where a law says that two results are the same, its
premise says that the caller's functions answer the same to the same questions
(`answers_alike`) and, with random samples, that the generator repeats itself
(`generator_repeats`).
