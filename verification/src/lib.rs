pub mod bundle;
pub mod dense_matrix;
pub mod feature_tracks;
pub mod geometry;
pub mod imu_text;
pub mod imu_windows;
pub mod loop_candidates;
pub mod order;
pub mod rig_submap_alignment;
pub mod sampling;
pub mod scalar;
pub mod scored_map;
pub mod sequences;
pub mod sim3_pose_graph;
pub mod sparse_factor_graph;
pub mod spanning_tree;
pub mod sparsification;
pub mod statistics;
pub mod stereo_imu;
pub mod stereo_landmarks;
pub mod stereo_vo_ba;
pub mod submap_alignment;
pub mod submap_overlap;
pub mod submap_partition;
pub mod submap_widening;
pub mod text;
pub mod vi_alignment;
pub mod vi_initializer;
pub mod vi_motion_initializer;
pub mod vo_loop_closure;
