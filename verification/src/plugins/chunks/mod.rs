pub mod systems;
