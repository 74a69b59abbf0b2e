//! Camera-centred voxel terrain: chunk generation, face meshing, level of
//! detail, frustum culling and the streaming bookkeeping that keeps the set of
//! resident chunks around the camera.
//!
//! Lengths are integers. World positions are measured in thousandths of a
//! voxel edge ("fine units"), so that the camera can sit between voxels while
//! every comparison stays exact.

pub mod camera;
pub mod chunk_builder;
pub mod chunkmesh;
pub mod culler;
pub mod geometry;
pub mod keyed;
pub mod mesh_spawner;
pub mod voxel_gen;
pub mod world;
