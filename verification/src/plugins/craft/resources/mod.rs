pub mod crafts_registry;
