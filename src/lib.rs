//! Turning a cubic occupancy grid of voxels into a triangle mesh, by one of
//! three strategies: a full cube per voxel, only the exposed faces, or the
//! exposed faces merged into maximal rectangles.

pub mod area;
pub mod chunk;
pub mod face;
pub mod generate;
pub mod greedy;
pub mod mesh;
pub mod mesher;
pub mod unit_faces;
