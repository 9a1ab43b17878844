//! Incremental Euclidean signed distance fields over a sparse voxel volume.
//!
//! The volume is a sparse set of cubic blocks, each a dense array of voxels.
//! A truncated signed distance field holds what has been observed of the
//! surfaces; the distance field holds, for each voxel, the distance to the
//! nearest observed voxel, approximated by sweeps inside the blocks and
//! propagations across their faces. An update brings the distance field up
//! to date after the truncated field has changed in some blocks, and works
//! only on the blocks that the change affects.
//!
//! Distances are fixed-point numbers: whole numbers of a unit that the
//! caller chooses. The voxel size of a layer is given in the same unit.
//!
//! The modules, from the ground up:
//! - `index`, `block_order`: voxel and block indices, their conversions,
//!   neighbours and order;
//! - `voxel`, `storage`, `block`, `layer`, `block_set`: the voxels, the
//!   blocks, the sparse layers and sets of blocks;
//! - `relax`, `sweep`, `propagate`, `passes`: the steps of the distance
//!   field computation;
//! - `invalidation`, `seeding`, `prepare`: what an update clears and seeds
//!   before the passes start;
//! - `esdf`, `esdf_gpu`, `tsdf`, `progress`, `wire`: the integrators, the
//!   progress hook and the byte layout for accelerators;
//! - `settle`, `sites`, `rest`, `laws`: what is proved of sweeps,
//!   propagations, passes and updates.

pub mod index;
pub mod block_order;
pub mod voxel;
pub mod storage;
pub mod block;
pub mod layer;
pub mod block_set;
pub mod relax;
pub mod sweep;
pub mod propagate;
pub mod passes;
pub mod invalidation;
pub mod seeding;
pub mod prepare;
pub mod progress;
pub mod esdf;
pub mod esdf_gpu;
pub mod tsdf;
pub mod wire;
pub mod settle;
pub mod sites;
pub mod rest;
pub mod laws;
