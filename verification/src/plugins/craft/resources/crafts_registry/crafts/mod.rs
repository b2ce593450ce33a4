pub mod simple;
