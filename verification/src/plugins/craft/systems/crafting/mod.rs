pub mod fire;
