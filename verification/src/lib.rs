//! Clustered forward lighting and shadow-pass scheduling.
//!
//! The library partitions a camera's view volume into a 3D grid of clusters,
//! assigns each active light to the clusters it can influence, selects and
//! allocates shadow casters into a fixed-capacity atlas, and builds the frame
//! dependency graph that orders the shadow pass ahead of the main color pass.
//! All geometry is carried in fixed-point view-space coordinates so that every
//! predicate and every builder is exact and verified.

pub mod geometry;
pub mod grid;
pub mod light;
pub mod assign;
pub mod graph;
pub mod schedule;
pub mod shadow;
pub mod pipeline;
pub mod frame;
