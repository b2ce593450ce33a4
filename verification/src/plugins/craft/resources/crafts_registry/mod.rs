pub mod crafts;
