pub mod resources;
pub mod systems;
