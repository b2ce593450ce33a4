//! Voxel world core: positions, directions, voxels, chunks and the chunk
//! level-of-detail tree, with their contracts proved by Verus.
pub mod internal;
pub mod plugins;
