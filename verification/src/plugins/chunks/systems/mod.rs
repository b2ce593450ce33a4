pub mod details;
pub mod loading;
pub mod mine;
pub mod unload;
