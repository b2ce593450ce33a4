pub mod chunks;
pub mod craft;
pub mod game_world;
