pub mod resources;
pub mod utils;
