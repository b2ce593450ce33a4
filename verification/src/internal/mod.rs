pub mod color;
pub mod direction;
pub mod pos;
pub mod around_walk;
pub mod voxel;
pub mod chunks;
pub mod voxel_pos;
pub mod world_generator;
